//! Joining and normalising slash-separated paths.
//!
//! A path splits into components: a root (`/`), a leading `.`, parent steps
//! (`..`) and named segments.  Joining walks all components left to right
//! over a component stack: a root resets the stack, a parent step pops a
//! named segment (or accumulates at the front), and an absolute path later
//! in the list wins over everything before it.  Parent and current-dir
//! components render with a trailing separator (`../`, `./`).

use vstd::prelude::*;
use vstd::string::{StringExecFns, StrSliceExecFns};
use crate::strutil::str_eq;

verus! {

/// Mathematical image of one path component.
pub ghost enum ComponentView {
    RootDir,
    CurDir,
    ParentDir,
    Normal(Seq<char>),
}

/// One parsed path component.
pub enum PathComponent {
    RootDir,
    CurDir,
    ParentDir,
    Normal(String),
}

impl View for PathComponent {
    type V = ComponentView;

    open spec fn view(&self) -> ComponentView {
        match self {
            PathComponent::RootDir => ComponentView::RootDir,
            PathComponent::CurDir => ComponentView::CurDir,
            PathComponent::ParentDir => ComponentView::ParentDir,
            PathComponent::Normal(s) => ComponentView::Normal(s@),
        }
    }
}

/// Mathematical image of a component list.
pub open spec fn components_view(v: Seq<PathComponent>) -> Seq<ComponentView> {
    Seq::new(v.len(), |i: int| v[i]@)
}

/// Split on `/`: the list of (possibly empty) tokens between separators.
pub open spec fn spec_split_slash(s: Seq<char>) -> Seq<Seq<char>>
    decreases s.len(),
{
    if s.len() == 0 {
        seq![Seq::<char>::empty()]
    } else if s[0] == '/' {
        seq![Seq::<char>::empty()] + spec_split_slash(s.drop_first())
    } else {
        let rest = spec_split_slash(s.drop_first());
        seq![seq![s[0]] + rest[0]] + rest.drop_first()
    }
}

/// A split always yields at least one token.
proof fn lemma_split_nonempty(s: Seq<char>)
    ensures
        spec_split_slash(s).len() >= 1,
    decreases s.len(),
{
    if s.len() == 0 {
    } else if s[0] == '/' {
        lemma_split_nonempty(s.drop_first());
    } else {
        lemma_split_nonempty(s.drop_first());
    }
}

/// When the first `j` characters hold no separator, the split starts with
/// that whole chunk.
proof fn lemma_split_chunk(s: Seq<char>, j: int)
    requires
        0 <= j <= s.len(),
        forall|k: int| 0 <= k < j ==> s[k] != '/',
    ensures
        j == s.len() ==> spec_split_slash(s) == seq![s],
        j < s.len() && s[j] == '/' ==> spec_split_slash(s) == seq![s.take(j)] + spec_split_slash(
            s.skip(j + 1),
        ),
    decreases j,
{
    lemma_split_nonempty(s.drop_first());
    if j == 0 {
        if s.len() == 0 {
            assert(s =~= Seq::<char>::empty());
            assert(spec_split_slash(s) =~= seq![s]);
        } else if s[0] == '/' {
            assert(s.take(0) =~= Seq::<char>::empty());
            assert(s.skip(1) =~= s.drop_first());
            assert(spec_split_slash(s) =~= seq![s.take(0)] + spec_split_slash(s.skip(1)));
        }
    } else {
        let d = s.drop_first();
        lemma_split_chunk(d, j - 1);
        let rest = spec_split_slash(d);
        if j == s.len() {
            assert(rest == seq![d]);
            assert(rest[0] == d);
            assert(seq![s[0]] + rest[0] =~= s);
            assert(rest.drop_first() =~= Seq::<Seq<char>>::empty());
            assert(spec_split_slash(s) =~= seq![s]);
        } else {
            assert(d[j - 1] == s[j]);
            if s[j] == '/' {
                assert(rest == seq![d.take(j - 1)] + spec_split_slash(d.skip(j)));
                assert(rest[0] == d.take(j - 1));
                assert(seq![s[0]] + d.take(j - 1) =~= s.take(j));
                assert(rest.drop_first() =~= spec_split_slash(d.skip(j)));
                assert(d.skip(j) =~= s.skip(j + 1));
                assert(spec_split_slash(s) =~= seq![s.take(j)] + spec_split_slash(s.skip(j + 1)));
            }
        }
    }
}

/// Split a path on `/`.
fn split_slash(s: &str) -> (r: Vec<String>)
    ensures
        r@.len() == spec_split_slash(s@).len(),
        forall|i: int| 0 <= i < r@.len() ==> (#[trigger] r@[i])@ == spec_split_slash(s@)[i],
    decreases s@.len(),
{
    let n = s.unicode_len();
    let mut j: usize = 0;
    while j < n
        invariant
            j <= n,
            n == s@.len(),
            forall|k: int| 0 <= k < j ==> s@[k] != '/',
        ensures
            j <= n,
            n == s@.len(),
            forall|k: int| 0 <= k < j ==> s@[k] != '/',
            j == n || s@[j as int] == '/',
        decreases n - j,
    {
        if s.get_char(j) == '/' {
            break;
        }
        j += 1;
    }
    if j == n {
        let mut v: Vec<String> = Vec::new();
        v.push(s.to_owned());
        proof {
            lemma_split_chunk(s@, j as int);
        }
        v
    } else {
        let token = s.substring_char(0, j).to_owned();
        let rest_str = s.substring_char(j + 1, n);
        let mut rest = split_slash(rest_str);
        let ghost pre_rest = rest@;
        rest.insert(0, token);
        proof {
            lemma_split_chunk(s@, j as int);
            let sp = spec_split_slash(s@);
            assert(sp == seq![s@.take(j as int)] + spec_split_slash(s@.skip(j as int + 1)));
            assert(token@ == s@.subrange(0, j as int));
            assert(s@.take(j as int) =~= s@.subrange(0, j as int));
            assert(rest_str@ == s@.skip(j as int + 1));
            assert forall|i: int| 0 <= i < rest@.len() implies (#[trigger] rest@[i])@ == sp[i] by {
                if i == 0 {
                } else {
                    assert(rest@[i] == pre_rest[i - 1]);
                }
            }
        }
        rest
    }
}

/// The components the tokens of a split yield: empty and `.` tokens are
/// dropped, `..` is a parent step, anything else is a named segment.
pub open spec fn spec_token_components(ts: Seq<Seq<char>>) -> Seq<ComponentView>
    decreases ts.len(),
{
    if ts.len() == 0 {
        Seq::empty()
    } else {
        let rest = spec_token_components(ts.drop_first());
        if ts[0].len() == 0 || ts[0] == "."@ {
            rest
        } else if ts[0] == ".."@ {
            seq![ComponentView::ParentDir] + rest
        } else {
            seq![ComponentView::Normal(ts[0])] + rest
        }
    }
}

/// `spec_token_components` distributes over concatenation.
proof fn lemma_token_components_concat(a: Seq<Seq<char>>, b: Seq<Seq<char>>)
    ensures
        spec_token_components(a + b) == spec_token_components(a) + spec_token_components(b),
    decreases a.len(),
{
    if a.len() == 0 {
        assert(a + b =~= b);
        assert(spec_token_components(a) + spec_token_components(b) =~= spec_token_components(b));
    } else {
        let t = a + b;
        assert(t[0] == a[0]);
        assert(t.drop_first() =~= a.drop_first() + b);
        lemma_token_components_concat(a.drop_first(), b);
        assert(spec_token_components(a) + spec_token_components(b) =~= spec_token_components(a + b));
    }
}

/// The component list of one path: a root or a leading current-dir marker,
/// then the token components.
pub open spec fn spec_components(s: Seq<char>) -> Seq<ComponentView> {
    let ts = spec_split_slash(s);
    if s.len() > 0 && s[0] == '/' {
        seq![ComponentView::RootDir] + spec_token_components(ts)
    } else if ts[0] == "."@ {
        seq![ComponentView::CurDir] + spec_token_components(ts)
    } else {
        spec_token_components(ts)
    }
}

/// Parse one path into its components.
fn components_of(s: &str) -> (r: Vec<PathComponent>)
    ensures
        components_view(r@) == spec_components(s@),
{
    let n = s.unicode_len();
    let ts = split_slash(s);
    let ghost tsv = Seq::new(ts@.len(), |i: int| ts@[i]@);
    proof {
        assert(tsv =~= spec_split_slash(s@));
        lemma_split_nonempty(s@);
    }
    let mut r: Vec<PathComponent> = Vec::new();
    if n > 0 && s.get_char(0) == '/' {
        r.push(PathComponent::RootDir);
    } else if str_eq(ts[0].as_str(), ".") {
        r.push(PathComponent::CurDir);
    }
    let ghost prefix = components_view(r@);
    let mut i: usize = 0;
    proof {
        assert(tsv.take(0) =~= Seq::<Seq<char>>::empty());
        assert(components_view(r@) =~= prefix + spec_token_components(tsv.take(0)));
    }
    while i < ts.len()
        invariant
            i <= ts@.len(),
            tsv == Seq::new(ts@.len(), |k: int| ts@[k]@),
            components_view(r@) == prefix + spec_token_components(tsv.take(i as int)),
        decreases ts@.len() - i,
    {
        proof {
            assert(tsv.take(i as int + 1) =~= tsv.take(i as int) + seq![tsv[i as int]]);
            lemma_token_components_concat(tsv.take(i as int), seq![tsv[i as int]]);
            assert(seq![tsv[i as int]].drop_first() =~= Seq::<Seq<char>>::empty());
            assert(spec_token_components(Seq::<Seq<char>>::empty()) =~= Seq::<
                ComponentView,
            >::empty());
            assert(tsv[i as int] == ts@[i as int]@);
            reveal_strlit(".");
            reveal_strlit("..");
        }
        let ghost pre_view = components_view(r@);
        let token = &ts[i];
        if token.as_str().is_empty() || str_eq(token.as_str(), ".") {
            proof {
                assert(spec_token_components(seq![tsv[i as int]]) =~= Seq::<
                    ComponentView,
                >::empty());
                assert(components_view(r@) =~= prefix + spec_token_components(
                    tsv.take(i as int + 1),
                ));
            }
        } else if str_eq(token.as_str(), "..") {
            r.push(PathComponent::ParentDir);
            proof {
                assert(tsv[i as int] == ".."@);
                assert(tsv[i as int] != "."@);
                assert(tsv[i as int].len() != 0);
                assert(spec_token_components(seq![tsv[i as int]]) =~= seq![
                    ComponentView::ParentDir,
                ]);
                assert(components_view(r@) =~= pre_view.push(ComponentView::ParentDir));
                assert(spec_token_components(tsv.take(i as int + 1)) == spec_token_components(
                    tsv.take(i as int),
                ) + seq![ComponentView::ParentDir]);
                assert(components_view(r@) =~= prefix + spec_token_components(
                    tsv.take(i as int + 1),
                ));
            }
        } else {
            r.push(PathComponent::Normal(token.clone()));
            proof {
                assert(tsv[i as int] != "."@);
                assert(tsv[i as int] != ".."@);
                assert(tsv[i as int].len() != 0);
                assert(spec_token_components(seq![tsv[i as int]]) =~= seq![
                    ComponentView::Normal(tsv[i as int]),
                ]);
                assert(components_view(r@) =~= pre_view.push(
                    ComponentView::Normal(tsv[i as int]),
                ));
                assert(spec_token_components(tsv.take(i as int + 1)) == spec_token_components(
                    tsv.take(i as int),
                ) + seq![ComponentView::Normal(tsv[i as int])]);
                assert(components_view(r@) =~= prefix + spec_token_components(
                    tsv.take(i as int + 1),
                ));
            }
        }
        i += 1;
    }
    proof {
        assert(tsv.take(i as int) =~= tsv);
        assert(prefix + spec_token_components(tsv) =~= spec_components(s@));
    }
    r
}

/// One step of the joining walk: what one component does to the component
/// stack built so far.
pub open spec fn spec_apply(acc: Seq<ComponentView>, c: ComponentView) -> Seq<ComponentView> {
    match c {
        ComponentView::RootDir => seq![ComponentView::RootDir],
        ComponentView::CurDir => if acc.len() == 0 {
            acc.push(ComponentView::CurDir)
        } else {
            acc
        },
        ComponentView::ParentDir => if acc.len() == 0 {
            acc.push(ComponentView::ParentDir)
        } else {
            match acc.last() {
                ComponentView::Normal(_) => acc.drop_last(),
                ComponentView::ParentDir => acc.push(ComponentView::ParentDir),
                ComponentView::CurDir => acc.drop_last().push(ComponentView::ParentDir),
                ComponentView::RootDir => acc,
            }
        },
        ComponentView::Normal(name) => if name.len() > 0 {
            acc.push(ComponentView::Normal(name))
        } else {
            acc
        },
    }
}

/// The joining walk over a whole component list.
pub open spec fn spec_apply_all(acc: Seq<ComponentView>, cs: Seq<ComponentView>) -> Seq<
    ComponentView,
>
    decreases cs.len(),
{
    if cs.len() == 0 {
        acc
    } else {
        spec_apply_all(spec_apply(acc, cs[0]), cs.drop_first())
    }
}

/// The walk peels components off the front one at a time.
proof fn lemma_apply_all_snoc(acc: Seq<ComponentView>, cs: Seq<ComponentView>, c: ComponentView)
    ensures
        spec_apply_all(acc, cs.push(c)) == spec_apply(spec_apply_all(acc, cs), c),
    decreases cs.len(),
{
    if cs.len() == 0 {
        let t = cs.push(c);
        assert(t[0] == c);
        assert(t.drop_first() =~= Seq::<ComponentView>::empty());
        assert(spec_apply_all(spec_apply(acc, c), Seq::<ComponentView>::empty()) == spec_apply(
            acc,
            c,
        ));
        assert(spec_apply_all(acc, t) == spec_apply(acc, c));
    } else {
        let t = cs.push(c);
        assert(t[0] == cs[0]);
        assert(t.drop_first() =~= cs.drop_first().push(c));
        lemma_apply_all_snoc(spec_apply(acc, cs[0]), cs.drop_first(), c);
    }
}

/// Apply one parsed component to the component stack.
fn apply_component(acc: &mut Vec<PathComponent>, c: PathComponent)
    ensures
        components_view(final(acc)@) == spec_apply(components_view(old(acc)@), c@),
{
    let ghost pre = components_view(old(acc)@);
    match c {
        PathComponent::RootDir => {
            acc.clear();
            acc.push(PathComponent::RootDir);
            proof {
                assert(components_view(acc@) =~= spec_apply(pre, ComponentView::RootDir));
            }
        },
        PathComponent::CurDir => {
            if acc.len() == 0 {
                acc.push(PathComponent::CurDir);
                proof {
                    assert(components_view(acc@) =~= pre.push(ComponentView::CurDir));
                }
            }
        },
        PathComponent::ParentDir => {
            if acc.len() == 0 {
                acc.push(PathComponent::ParentDir);
                proof {
                    assert(components_view(acc@) =~= pre.push(ComponentView::ParentDir));
                }
            } else {
                let top_kind: u8 = match &acc[acc.len() - 1] {
                    PathComponent::Normal(_) => 0,
                    PathComponent::ParentDir => 1,
                    PathComponent::CurDir => 2,
                    PathComponent::RootDir => 3,
                };
                proof {
                    assert(acc@[acc@.len() - 1]@ == pre.last());
                }
                if top_kind == 0 {
                    let _ = acc.pop();
                    proof {
                        assert(components_view(acc@) =~= pre.drop_last());
                    }
                } else if top_kind == 1 {
                    acc.push(PathComponent::ParentDir);
                    proof {
                        assert(components_view(acc@) =~= pre.push(ComponentView::ParentDir));
                    }
                } else if top_kind == 2 {
                    let _ = acc.pop();
                    acc.push(PathComponent::ParentDir);
                    proof {
                        assert(components_view(acc@) =~= pre.drop_last().push(
                            ComponentView::ParentDir,
                        ));
                    }
                }
            }
        },
        PathComponent::Normal(name) => {
            if !name.as_str().is_empty() {
                let ghost nv = name@;
                acc.push(PathComponent::Normal(name));
                proof {
                    assert(components_view(acc@) =~= pre.push(ComponentView::Normal(nv)));
                }
            }
        },
    }
}

/// Render named segments joined by `/`.
pub open spec fn spec_render_tail(cs: Seq<ComponentView>) -> Seq<char>
    decreases cs.len(),
{
    if cs.len() == 0 {
        Seq::empty()
    } else {
        let head: Seq<char> = match cs[0] {
            ComponentView::Normal(n) => n,
            _ => Seq::empty(),
        };
        if cs.len() == 1 {
            head
        } else {
            head + seq!['/'] + spec_render_tail(cs.drop_first())
        }
    }
}

/// Render a component stack: a root or current-dir prefix carries its own
/// separator, parent steps render as `../`, and named segments are joined
/// by `/`.
pub open spec fn spec_render(cs: Seq<ComponentView>) -> Seq<char>
    decreases cs.len(),
{
    if cs.len() == 0 {
        Seq::empty()
    } else {
        match cs[0] {
            ComponentView::RootDir => seq!['/'] + spec_render_tail(cs.drop_first()),
            ComponentView::CurDir => seq!['.', '/'] + spec_render_tail(cs.drop_first()),
            ComponentView::ParentDir => seq!['.', '.', '/'] + spec_render(cs.drop_first()),
            ComponentView::Normal(_) => spec_render_tail(cs),
        }
    }
}

/// Render the named segments from position `i` on.
fn render_tail_from(cs: &Vec<PathComponent>, i: usize) -> (r: String)
    requires
        i <= cs@.len(),
    ensures
        r@ == spec_render_tail(components_view(cs@).skip(i as int)),
    decreases cs@.len() - i,
{
    let ghost cv = components_view(cs@).skip(i as int);
    if i == cs.len() {
        proof {
            assert(cv =~= Seq::<ComponentView>::empty());
        }
        String::new()
    } else {
        let head: String = match &cs[i] {
            PathComponent::Normal(n) => n.clone(),
            _ => String::new(),
        };
        proof {
            assert(cv[0] == cs@[i as int]@);
        }
        if i + 1 == cs.len() {
            proof {
                assert(cv.len() == 1);
            }
            head
        } else {
            let rest = render_tail_from(cs, i + 1);
            let mut out = head;
            out.append("/");
            out.append(rest.as_str());
            proof {
                reveal_strlit("/");
                assert(cv.drop_first() =~= components_view(cs@).skip(i as int + 1));
                assert(out@ =~= spec_render_tail(cv));
            }
            out
        }
    }
}

/// Render a component stack from position `i` on.
fn render_from(cs: &Vec<PathComponent>, i: usize) -> (r: String)
    requires
        i <= cs@.len(),
    ensures
        r@ == spec_render(components_view(cs@).skip(i as int)),
    decreases cs@.len() - i,
{
    let ghost cv = components_view(cs@).skip(i as int);
    if i == cs.len() {
        proof {
            assert(cv =~= Seq::<ComponentView>::empty());
        }
        String::new()
    } else {
        proof {
            assert(cv[0] == cs@[i as int]@);
            assert(cv.drop_first() =~= components_view(cs@).skip(i as int + 1));
        }
        match &cs[i] {
            PathComponent::RootDir => {
                let rest = render_tail_from(cs, i + 1);
                let mut out = String::from_str("/");
                out.append(rest.as_str());
                proof {
                    reveal_strlit("/");
                    assert(out@ =~= spec_render(cv));
                }
                out
            },
            PathComponent::CurDir => {
                let rest = render_tail_from(cs, i + 1);
                let mut out = String::from_str("./");
                out.append(rest.as_str());
                proof {
                    reveal_strlit("./");
                    assert(out@ =~= spec_render(cv));
                }
                out
            },
            PathComponent::ParentDir => {
                let rest = render_from(cs, i + 1);
                let mut out = String::from_str("../");
                out.append(rest.as_str());
                proof {
                    reveal_strlit("../");
                    assert(out@ =~= spec_render(cv));
                }
                out
            },
            PathComponent::Normal(_) => {
                let out = render_tail_from(cs, i);
                proof {
                    assert(cv.skip(0) =~= cv);
                }
                out
            },
        }
    }
}

/// The joining walk over every component of every path, from an empty
/// stack.
pub open spec fn spec_join_stack(paths: Seq<String>, upto: int) -> Seq<ComponentView>
    decreases upto,
{
    if upto <= 0 {
        Seq::empty()
    } else {
        spec_apply_all(spec_join_stack(paths, upto - 1), spec_components(paths[upto - 1]@))
    }
}

/// What joining a list of paths yields.
pub open spec fn spec_join(paths: Seq<String>) -> Seq<char> {
    spec_render(spec_join_stack(paths, paths.len() as int))
}

/// Join and normalise a list of slash-separated paths, later absolute
/// paths overriding what came before.
pub fn join(paths: Vec<String>) -> (r: String)
    ensures
        r@ == spec_join(paths@),
{
    let mut acc: Vec<PathComponent> = Vec::new();
    let mut i: usize = 0;
    proof {
        assert(components_view(acc@) =~= spec_join_stack(paths@, 0));
    }
    while i < paths.len()
        invariant
            i <= paths@.len(),
            components_view(acc@) == spec_join_stack(paths@, i as int),
        decreases paths@.len() - i,
    {
        let cs = components_of(paths[i].as_str());
        let ghost csv = components_view(cs@);
        let mut j: usize = 0;
        let ghost acc0 = components_view(acc@);
        proof {
            assert(csv.take(0) =~= Seq::<ComponentView>::empty());
        }
        let mut cs = cs;
        let total = cs.len();
        let mut consumed: usize = 0;
        while cs.len() > 0
            invariant
                csv == spec_components(paths@[i as int]@),
                total == csv.len(),
                consumed + cs@.len() == csv.len(),
                consumed <= total,
                components_view(cs@) == csv.skip(consumed as int),
                components_view(acc@) == spec_apply_all(acc0, csv.take(consumed as int)),
            decreases cs@.len(),
        {
            let ghost pre_cs = cs@;
            let c = cs.remove(0);
            proof {
                assert(components_view(pre_cs) == csv.skip(consumed as int));
                assert(c@ == components_view(pre_cs)[0]);
                assert(c@ == csv[consumed as int]);
                assert(csv.take(consumed as int + 1) =~= csv.take(consumed as int).push(
                    csv[consumed as int],
                ));
                lemma_apply_all_snoc(acc0, csv.take(consumed as int), csv[consumed as int]);
                assert(cs@ =~= pre_cs.drop_first());
                assert forall|k: int|
                    0 <= k < components_view(cs@).len() implies components_view(cs@)[k]
                        == csv.skip(consumed as int + 1)[k] by {
                    assert(cs@[k] == pre_cs[k + 1]);
                    assert(components_view(pre_cs)[k + 1] == csv.skip(consumed as int)[k + 1]);
                }
                assert(components_view(cs@) =~= csv.skip(consumed as int + 1));
            }
            apply_component(&mut acc, c);
            consumed += 1;
        }
        proof {
            assert(csv.take(consumed as int) =~= csv);
            assert(spec_apply_all(acc0, csv) == spec_join_stack(paths@, i as int + 1));
        }
        i += 1;
    }
    let out = render_from(&acc, 0);
    proof {
        assert(components_view(acc@).skip(0) =~= components_view(acc@));
    }
    out
}

} // verus!
