//! The order of paths, as `std::path::Path` sorts them on Unix: component
//! by component, the root before `.` before `..` before names, and names by
//! their characters.
use crate::pipeline::{is_path_separator, last_component};
use crate::text::chars_of;
use std::cmp::Ordering;
use vstd::prelude::*;

verus! {

/// A component of a path: its kind (0 the root, 1 a leading `.`, 2 `..`,
/// 3 a name) and, for a name, its characters.
pub type Component = (u8, Seq<char>);

/// The component that a piece between separators stands for, other than
/// `.`.
pub open spec fn component_of(c: Seq<char>) -> Component {
    if c == ".."@ {
        (2u8, Seq::empty())
    } else {
        (3u8, c)
    }
}

/// The last component of a path is at most as long as the path, at least
/// one character when the path ends in one, and the path's tail.
pub proof fn lemma_last_component_len(s: Seq<char>)
    ensures
        last_component(s).len() <= s.len(),
        s.len() > 0 && !is_path_separator(s.last()) ==> last_component(s).len() >= 1,
        last_component(s) == s.subrange(s.len() - last_component(s).len(), s.len() as int),
    decreases s.len(),
{
    if s.len() > 0 && !is_path_separator(s.last()) {
        lemma_last_component_len(s.drop_last());
        assert(last_component(s) =~= s.subrange(s.len() - last_component(s).len(), s.len() as int));
    }
}

/// The components of a path after its start: repeated and trailing
/// separators and `.` components are skipped.
pub open spec fn inner_components(s: Seq<char>) -> Seq<Component>
    decreases s.len(),
{
    if s.len() == 0 {
        Seq::empty()
    } else if is_path_separator(s.last()) {
        inner_components(s.drop_last())
    } else {
        let c = last_component(s);
        proof {
            lemma_last_component_len(s);
        }
        let before = inner_components(s.take(s.len() - c.len()));
        if c == "."@ {
            before
        } else {
            before.push(component_of(c))
        }
    }
}

/// The components of a path, as `Path::components` yields them on Unix:
/// the root first for an absolute path, a leading `.` for a path that
/// starts with it, then the other components.
pub open spec fn path_components(s: Seq<char>) -> Seq<Component> {
    if s.len() > 0 && s[0] == '/' {
        seq![(0u8, Seq::<char>::empty())] + inner_components(s)
    } else if s.len() > 0 && s[0] == '.' && (s.len() == 1 || s[1] == '/') {
        seq![(1u8, Seq::<char>::empty())] + inner_components(s)
    } else {
        inner_components(s)
    }
}

/// Whether `a` comes before `b` character by character (a prefix first).
pub open spec fn chars_before(a: Seq<char>, b: Seq<char>) -> bool
    decreases a.len(),
{
    if b.len() == 0 {
        false
    } else if a.len() == 0 {
        true
    } else if a[0] != b[0] {
        a[0] < b[0]
    } else {
        chars_before(a.drop_first(), b.drop_first())
    }
}

/// Whether component `x` comes before component `y`: by kind, then by
/// name.
pub open spec fn component_before(x: Component, y: Component) -> bool {
    x.0 < y.0 || (x.0 == y.0 && chars_before(x.1, y.1))
}

/// Whether components `a` come before components `b`, component by
/// component (a prefix first).
pub open spec fn components_before(a: Seq<Component>, b: Seq<Component>) -> bool
    decreases a.len(),
{
    if b.len() == 0 {
        false
    } else if a.len() == 0 {
        true
    } else if a[0] != b[0] {
        component_before(a[0], b[0])
    } else {
        components_before(a.drop_first(), b.drop_first())
    }
}

/// Whether path `a` sorts before path `b`.
pub open spec fn path_before(a: Seq<char>, b: Seq<char>) -> bool {
    components_before(path_components(a), path_components(b))
}

proof fn lemma_chars_irreflexive(a: Seq<char>)
    ensures
        !chars_before(a, a),
    decreases a.len(),
{
    if a.len() > 0 {
        lemma_chars_irreflexive(a.drop_first());
    }
}

proof fn lemma_components_irreflexive(a: Seq<Component>)
    ensures
        !components_before(a, a),
    decreases a.len(),
{
    if a.len() > 0 {
        lemma_components_irreflexive(a.drop_first());
    }
}

proof fn lemma_chars_order(a: Seq<char>, b: Seq<char>, c: Seq<char>)
    ensures
        !(chars_before(a, b) && chars_before(b, a)),
        a != b ==> chars_before(a, b) || chars_before(b, a),
        chars_before(a, b) && chars_before(b, c) ==> chars_before(a, c),
        !chars_before(a, a),
    decreases a.len() + b.len() + c.len(),
{
    if a.len() > 0 && b.len() > 0 && c.len() > 0 {
        lemma_chars_order(a.drop_first(), b.drop_first(), c.drop_first());
    }
    if a.len() > 0 && b.len() > 0 {
        lemma_chars_order(a.drop_first(), b.drop_first(), Seq::empty());
        if a[0] == b[0] && a.drop_first() == b.drop_first() {
            assert(a =~= seq![a[0]] + a.drop_first());
            assert(b =~= seq![b[0]] + b.drop_first());
        }
    }
    lemma_chars_irreflexive(a);
    if a.len() == 0 && b.len() == 0 {
        assert(a =~= b);
    }
}

proof fn lemma_component_order(x: Component, y: Component, z: Component)
    ensures
        !(component_before(x, y) && component_before(y, x)),
        x != y && (x.0 != y.0 || x.1 != y.1) ==> component_before(x, y) || component_before(y, x),
        component_before(x, y) && component_before(y, z) ==> component_before(x, z),
        !component_before(x, x),
{
    lemma_chars_order(x.1, y.1, z.1);
}

proof fn lemma_components_order(a: Seq<Component>, b: Seq<Component>, c: Seq<Component>)
    ensures
        !(components_before(a, b) && components_before(b, a)),
        a != b ==> components_before(a, b) || components_before(b, a),
        components_before(a, b) && components_before(b, c) ==> components_before(a, c),
        !components_before(a, a),
    decreases a.len() + b.len() + c.len(),
{
    if a.len() > 0 && b.len() > 0 {
        lemma_component_order(a[0], b[0], if c.len() > 0 {
            c[0]
        } else {
            a[0]
        });
        lemma_component_order(a[0], a[0], a[0]);
        if c.len() > 0 {
            lemma_component_order(a[0], c[0], b[0]);
            lemma_component_order(b[0], c[0], a[0]);
            lemma_component_order(b[0], a[0], c[0]);
            lemma_components_order(a.drop_first(), b.drop_first(), c.drop_first());
        }
        lemma_components_order(a.drop_first(), b.drop_first(), Seq::empty());
        if a[0] == b[0] && a.drop_first() == b.drop_first() {
            assert(a =~= seq![a[0]] + a.drop_first());
            assert(b =~= seq![b[0]] + b.drop_first());
        }
    }
    lemma_components_irreflexive(a);
    if a.len() == 0 && b.len() == 0 {
        assert(a =~= b);
    }
}

/// Paths sort in a total order: never both ways, one way or the other
/// unless their components are the same, and transitively.
pub proof fn lemma_path_order(a: Seq<char>, b: Seq<char>, c: Seq<char>)
    ensures
        !(path_before(a, b) && path_before(b, a)),
        path_components(a) != path_components(b) ==> path_before(a, b) || path_before(b, a),
        path_before(a, b) && path_before(b, c) ==> path_before(a, c),
{
    lemma_components_order(path_components(a), path_components(b), path_components(c));
}

/// The components of a path as values.
pub open spec fn key_view(k: Seq<(u8, Vec<char>)>) -> Seq<Component> {
    k.map_values(|x: (u8, Vec<char>)| (x.0, x.1@))
}

/// The components of a path; see [`path_components`].
fn components(path: &str) -> (out: Vec<(u8, Vec<char>)>)
    ensures
        key_view(out@) == path_components(path@),
{
    let v = chars_of(path);
    let ghost s = path@;
    let mut out: Vec<(u8, Vec<char>)> = Vec::new();
    let mut end: usize = v.len();
    assert(s.take(v@.len() as int) =~= s);
    assert(key_view(out@) =~= Seq::<Component>::empty());
    while end > 0
        invariant
            v@ == s,
            s == path@,
            end <= v@.len(),
            inner_components(s) == inner_components(s.take(end as int)) + key_view(out@),
        decreases end,
    {
        let ghost t = s.take(end as int);
        assert(t.drop_last() =~= s.take(end - 1));
        assert(t.last() == v@[end - 1]);
        if v[end - 1] == '/' {
            end -= 1;
        } else {
            let mut start: usize = end;
            while start > 0 && v[start - 1] != '/'
                invariant
                    v@ == s,
                    start <= end <= v@.len(),
                    t == s.take(end as int),
                    last_component(t) == last_component(s.take(start as int)) + s.subrange(
                        start as int,
                        end as int,
                    ),
                decreases start,
            {
                assert(s.take(start as int).drop_last() =~= s.take(start - 1));
                assert(s.take(start as int).last() == s[start - 1]);
                assert(last_component(s.take(start as int)) == last_component(s.take(start - 1)).push(
                    s[start - 1],
                ));
                assert(last_component(s.take(start - 1)).push(s[start - 1]) + s.subrange(
                    start as int,
                    end as int,
                ) =~= last_component(s.take(start - 1)) + s.subrange(start - 1, end as int));
                start -= 1;
            }
            assert(last_component(s.take(start as int)) =~= Seq::<char>::empty());
            let ghost c = s.subrange(start as int, end as int);
            assert(last_component(t) =~= c);
            assert(t.take(t.len() - c.len()) =~= s.take(start as int));
            let mut piece: Vec<char> = Vec::new();
            let mut j: usize = start;
            while j < end
                invariant
                    v@ == s,
                    start <= j <= end <= v@.len(),
                    piece@ == s.subrange(start as int, j as int),
                decreases end - j,
            {
                piece.push(v[j]);
                j += 1;
                assert(piece@ =~= s.subrange(start as int, j as int));
            }
            let len = end - start;
            let is_dot = len == 1 && v[start] == '.';
            let is_dots = len == 2 && v[start] == '.' && v[start + 1] == '.';
            proof {
                reveal_strlit(".");
                reveal_strlit("..");
                assert("."@ =~= seq!['.']);
                assert(".."@ =~= seq!['.', '.']);
                if len >= 1 {
                    assert(c[0] == v@[start as int]);
                }
                if len >= 2 {
                    assert(c[1] == v@[start + 1]);
                }
                if is_dot {
                    assert(c =~= seq!['.']);
                }
                if is_dots {
                    assert(c =~= seq!['.', '.']);
                }
                if c == "."@ {
                    assert(c[0] == seq!['.'][0]);
                }
                if c == ".."@ {
                    assert(c[0] == seq!['.', '.'][0] && c[1] == seq!['.', '.'][1]);
                }
            }
            if !is_dot {
                let item = if is_dots {
                    (2u8, Vec::new())
                } else {
                    (3u8, piece)
                };
                assert(item.1@ == component_of(c).1);
                let ghost rest = key_view(out@);
                out.insert(0, item);
                assert(key_view(out@) =~= seq![component_of(c)] + rest);
                assert(inner_components(t) == inner_components(s.take(start as int)).push(component_of(c)));
                assert(inner_components(s.take(start as int)).push(component_of(c)) + rest
                    =~= inner_components(s.take(start as int)) + (seq![component_of(c)] + rest));
            }
            end = start;
        }
    }
    assert(s.take(0) =~= Seq::<char>::empty());
    assert(inner_components(s) =~= key_view(out@));
    let n = v.len();
    if n > 0 && v[0] == '/' {
        let ghost rest = key_view(out@);
        out.insert(0, (0u8, Vec::new()));
        assert(key_view(out@) =~= seq![(0u8, Seq::<char>::empty())] + rest);
    } else if n > 0 && v[0] == '.' && (n == 1 || v[1] == '/') {
        let ghost rest = key_view(out@);
        out.insert(0, (1u8, Vec::new()));
        assert(key_view(out@) =~= seq![(1u8, Seq::<char>::empty())] + rest);
    }
    out
}

/// How one sequence sorts against another.
#[derive(PartialEq, Eq, Structural)]
pub enum Order {
    Before,
    Same,
    After,
}

fn chars_compare(a: &Vec<char>, b: &Vec<char>) -> (out: Order)
    ensures
        (out == Order::Before) == chars_before(a@, b@),
        (out == Order::After) == chars_before(b@, a@),
        (out == Order::Same) == (a@ == b@),
{
    let mut i: usize = 0;
    proof {
        lemma_chars_order(a@, b@, b@);
    }
    assert(a@.skip(0) =~= a@ && b@.skip(0) =~= b@);
    while i < a.len() && i < b.len() && a[i] == b[i]
        invariant
            i <= a@.len(),
            i <= b@.len(),
            a@.take(i as int) == b@.take(i as int),
            chars_before(a@, b@) == chars_before(a@.skip(i as int), b@.skip(i as int)),
            chars_before(b@, a@) == chars_before(b@.skip(i as int), a@.skip(i as int)),
        decreases a@.len() - i,
    {
        assert(a@.skip(i as int).drop_first() =~= a@.skip(i + 1));
        assert(b@.skip(i as int).drop_first() =~= b@.skip(i + 1));
        assert(a@.take(i + 1) =~= a@.take(i as int).push(a@[i as int]));
        assert(b@.take(i + 1) =~= b@.take(i as int).push(b@[i as int]));
        i += 1;
    }
    if i < a.len() && i < b.len() {
        assert(a@.skip(i as int)[0] == a@[i as int] && b@.skip(i as int)[0] == b@[i as int]);
        if a[i] < b[i] {
            Order::Before
        } else {
            Order::After
        }
    } else if i < b.len() {
        assert(a@.take(i as int) =~= a@);
        Order::Before
    } else if i < a.len() {
        assert(b@.take(i as int) =~= b@);
        Order::After
    } else {
        assert(a@ =~= a@.take(i as int) && b@ =~= b@.take(i as int));
        Order::Same
    }
}

/// How the components `a` sort against `b`.
fn key_compare(a: &Vec<(u8, Vec<char>)>, b: &Vec<(u8, Vec<char>)>) -> (out: Order)
    ensures
        (out == Order::Before) == components_before(key_view(a@), key_view(b@)),
        (out == Order::After) == components_before(key_view(b@), key_view(a@)),
        (out == Order::Same) == (key_view(a@) == key_view(b@)),
{
    let ghost x = key_view(a@);
    let ghost y = key_view(b@);
    let mut i: usize = 0;
    assert(x.skip(0) =~= x && y.skip(0) =~= y);
    while i < a.len() && i < b.len()
        invariant
            x == key_view(a@),
            y == key_view(b@),
            i <= a@.len(),
            i <= b@.len(),
            x.take(i as int) == y.take(i as int),
            components_before(x, y) == components_before(x.skip(i as int), y.skip(i as int)),
            components_before(y, x) == components_before(y.skip(i as int), x.skip(i as int)),
        decreases a@.len() - i,
    {
        assert(x.skip(i as int)[0] == x[i as int] && y.skip(i as int)[0] == y[i as int]);
        assert(x[i as int] == (a@[i as int].0, a@[i as int].1@));
        assert(y[i as int] == (b@[i as int].0, b@[i as int].1@));
        let names = chars_compare(&a[i].1, &b[i].1);
        if a[i].0 < b[i].0 {
            return Order::Before;
        } else if a[i].0 > b[i].0 {
            return Order::After;
        } else {
            match names {
                Order::Before => {
                    return Order::Before;
                },
                Order::After => {
                    return Order::After;
                },
                Order::Same => {},
            }
        }
        assert(x.skip(i as int).drop_first() =~= x.skip(i + 1));
        assert(y.skip(i as int).drop_first() =~= y.skip(i + 1));
        assert(x.take(i + 1) =~= x.take(i as int).push(x[i as int]));
        assert(y.take(i + 1) =~= y.take(i as int).push(y[i as int]));
        i += 1;
    }
    if i < b.len() {
        assert(x.take(i as int) =~= x);
        assert(y.skip(i as int).len() > 0 && x.skip(i as int).len() == 0);
        Order::Before
    } else if i < a.len() {
        assert(y.take(i as int) =~= y);
        assert(x.skip(i as int).len() > 0 && y.skip(i as int).len() == 0);
        Order::After
    } else {
        assert(x =~= x.take(i as int) && y =~= y.take(i as int));
        proof {
            lemma_components_order(x, x, x);
        }
        Order::Same
    }
}

/// How path `a` sorts against path `b`.
fn path_compare(a: &String, b: &String) -> (out: Ordering)
    ensures
        (out == Ordering::Less) == path_before(a@, b@),
        (out == Ordering::Greater) == path_before(b@, a@),
        (out == Ordering::Equal) == (path_components(a@) == path_components(b@)),
{
    let x = components(a.as_str());
    let y = components(b.as_str());
    match key_compare(&x, &y) {
        Order::Before => Ordering::Less,
        Order::Same => Ordering::Equal,
        Order::After => Ordering::Greater,
    }
}

/// The characters of each path.
pub open spec fn paths_view(v: Seq<String>) -> Seq<Seq<char>> {
    v.map_values(|p: String| p@)
}

/// `slice::sort_by` with [`path_compare`]: as std documents it for a
/// comparison that orders totally, the paths come out in that order, each
/// one kept.
#[verifier::external_body]
fn sort_by_path(v: &mut Vec<String>)
    requires
        forall|a: Seq<char>, b: Seq<char>| !(#[trigger] path_before(a, b) && path_before(b, a)),
        forall|a: Seq<char>, b: Seq<char>|
            path_components(a) != path_components(b) ==> #[trigger] path_before(a, b) || path_before(b, a),
        forall|a: Seq<char>, b: Seq<char>, c: Seq<char>|
            #[trigger] path_before(a, b) && #[trigger] path_before(b, c) ==> path_before(a, c),
    ensures
        paths_view(final(v)@).to_multiset() == paths_view(old(v)@).to_multiset(),
        forall|i: int, j: int|
            0 <= i < j < final(v)@.len() ==> !path_before(#[trigger] final(v)@[j]@, #[trigger] final(v)@[i]@),
{
    v.sort_by(|a, b| path_compare(a, b))
}

/// `paths` in path order, each kept; see [`path_before`].
pub fn sort_paths(paths: Vec<String>) -> (out: Vec<String>)
    ensures
        paths_view(out@).to_multiset() == paths_view(paths@).to_multiset(),
        forall|i: int, j: int|
            0 <= i < j < out@.len() ==> !path_before(#[trigger] out@[j]@, #[trigger] out@[i]@),
{
    proof {
        assert forall|a: Seq<char>, b: Seq<char>| !(#[trigger] path_before(a, b) && path_before(b, a)) by {
            lemma_path_order(a, b, b);
        }
        assert forall|a: Seq<char>, b: Seq<char>| path_components(a) != path_components(b) implies
            #[trigger] path_before(a, b) || path_before(b, a) by {
            lemma_path_order(a, b, b);
        }
        assert forall|a: Seq<char>, b: Seq<char>, c: Seq<char>| #[trigger] path_before(a, b)
            && #[trigger] path_before(b, c) implies path_before(a, c) by {
            lemma_path_order(a, b, c);
        }
    }
    let mut out = paths;
    sort_by_path(&mut out);
    out
}

} // verus!
