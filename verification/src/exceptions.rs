//! What recording an edit as exceptions and resolving them gives back:
//! every field that the edit changed reads its edited value, every other
//! field its common value.
use crate::settings::{
    background_diffs, field_side, find_pin, fits, get_field, get_in_side, is_leaf, last_value,
    lemma_resolve_inherits, palette_diffs, pin, pin_all, pins_fit, push_if, resize_diffs, same_dither,
    sets_diffs, settings_diffs, settings_problem, side_diffs, spec_resolve, value_diffs, FieldView,
    SettingsView, SideView, ValueView,
};
use crate::settings::{apply_pins, leaf_pins, set_pins};
use crate::text::{assoc_get, find_key, keys_distinct, lemma_find_key, lemma_find_key_bound};
use vstd::prelude::*;

verus! {

/// No two pins name the same field.
pub open spec fn distinct_fields(p: Seq<(FieldView, ValueView)>) -> bool {
    forall|i: int, j: int| 0 <= i < j < p.len() ==> p[i].0 != p[j].0
}

proof fn lemma_last_push(s: Seq<(FieldView, ValueView)>, x: (FieldView, ValueView), g: FieldView)
    ensures
        last_value(s.push(x), g) == if x.0 == g {
            Some(x.1)
        } else {
            last_value(s, g)
        },
    decreases s.len(),
{
    if s.len() > 0 {
        assert(s.push(x).drop_first() =~= s.drop_first().push(x));
        assert(s.push(x)[0] == s[0]);
        lemma_last_push(s.drop_first(), x, g);
    } else {
        assert(s.push(x).drop_first() =~= Seq::<(FieldView, ValueView)>::empty());
        assert(s.push(x)[0] == x);
        assert(last_value(Seq::<(FieldView, ValueView)>::empty(), g) is None);
    }
}

proof fn lemma_last_unique(p: Seq<(FieldView, ValueView)>, g: FieldView, i: int)
    requires
        distinct_fields(p),
        0 <= i < p.len(),
        p[i].0 == g,
    ensures
        last_value(p, g) == Some(p[i].1),
    decreases p.len(),
{
    let rest = p.drop_first();
    assert(distinct_fields(rest)) by {
        assert forall|a: int, b: int| 0 <= a < b < rest.len() implies rest[a].0 != rest[b].0 by {
            assert(rest[a] == p[a + 1] && rest[b] == p[b + 1]);
        }
    }
    if i > 0 {
        assert(rest[i - 1] == p[i]);
        lemma_last_unique(rest, g, i - 1);
    } else {
        assert forall|j: int| 0 <= j < rest.len() implies rest[j].0 != g by {
            assert(rest[j] == p[j + 1]);
        }
        lemma_last_absent(rest, g);
    }
}

proof fn lemma_last_absent(p: Seq<(FieldView, ValueView)>, g: FieldView)
    requires
        forall|j: int| 0 <= j < p.len() ==> p[j].0 != g,
    ensures
        last_value(p, g) is None,
    decreases p.len(),
{
    if p.len() > 0 {
        let rest = p.drop_first();
        assert forall|j: int| 0 <= j < rest.len() implies rest[j].0 != g by {
            assert(rest[j] == p[j + 1]);
        }
        lemma_last_absent(rest, g);
        assert(p[0].0 != g);
    }
}

proof fn lemma_find_pin_bound(p: Seq<(FieldView, ValueView)>, f: FieldView)
    ensures
        find_pin(p, f) <= p.len(),
        find_pin(p, f) < p.len() ==> p[find_pin(p, f) as int].0 == f,
        find_pin(p, f) == p.len() ==> forall|j: int| 0 <= j < p.len() ==> p[j].0 != f,
    decreases p.len(),
{
    if p.len() > 0 && p[0].0 != f {
        let rest = p.drop_first();
        lemma_find_pin_bound(rest, f);
        if find_pin(p, f) < p.len() {
            assert(p[find_pin(p, f) as int] == rest[find_pin(rest, f) as int]);
        } else {
            assert forall|j: int| 0 <= j < p.len() implies p[j].0 != f by {
                if j > 0 {
                    assert(p[j] == rest[j - 1]);
                }
            }
        }
    }
}

/// Pinning a field keeps the fields distinct and changes the last pin of
/// that field only.
proof fn lemma_pin(p: Seq<(FieldView, ValueView)>, f: FieldView, v: ValueView, g: FieldView)
    requires
        distinct_fields(p),
    ensures
        distinct_fields(pin(p, f, v)),
        last_value(pin(p, f, v), g) == if g == f {
            Some(v)
        } else {
            last_value(p, g)
        },
{
    lemma_find_pin_bound(p, f);
    let i = find_pin(p, f);
    let q = pin(p, f, v);
    if i < p.len() {
        assert(q == p.update(i as int, (f, v)));
        assert forall|j: int| 0 <= j < q.len() implies q[j].0 == p[j].0 by {}
        assert(distinct_fields(q));
        if g == f {
            lemma_last_unique(q, g, i as int);
        } else if exists|j: int| 0 <= j < p.len() && p[j].0 == g {
            let j = choose|j: int| 0 <= j < p.len() && p[j].0 == g;
            assert(q[j] == p[j]);
            lemma_last_unique(p, g, j);
            lemma_last_unique(q, g, j);
        } else {
            lemma_last_absent(p, g);
            lemma_last_absent(q, g);
        }
    } else {
        assert(q == p.push((f, v)));
        assert(distinct_fields(q)) by {
            assert forall|a: int, b: int| 0 <= a < b < q.len() implies q[a].0 != q[b].0 by {
                if b == p.len() {
                    assert(q[a] == p[a]);
                } else {
                    assert(q[a] == p[a] && q[b] == p[b]);
                }
            }
        }
        lemma_last_push(p, (f, v), g);
    }
}

/// Pinning a sequence of values: each field reads its last pinned value,
/// or its earlier pin.
proof fn lemma_pin_all(p: Seq<(FieldView, ValueView)>, d: Seq<(FieldView, ValueView)>, g: FieldView)
    requires
        distinct_fields(p),
    ensures
        distinct_fields(pin_all(p, d)),
        last_value(pin_all(p, d), g) == match last_value(d, g) {
            Some(v) => Some(v),
            None => last_value(p, g),
        },
    decreases d.len(),
{
    if d.len() > 0 {
        let rest = d.drop_last();
        let (f, v) = d.last();
        lemma_pin_all(p, rest, g);
        lemma_pin(pin_all(p, rest), f, v, g);
        assert(d =~= rest.push(d.last()));
        lemma_last_push(rest, d.last(), g);
    }
}

proof fn lemma_pin_fit(p: Seq<(FieldView, ValueView)>, f: FieldView, v: ValueView)
    requires
        pins_fit(p),
        is_leaf(f),
        fits(f, v),
    ensures
        pins_fit(pin(p, f, v)),
{
    lemma_find_pin_bound(p, f);
    let q = pin(p, f, v);
    assert forall|j: int| 0 <= j < q.len() implies is_leaf(#[trigger] q[j].0) && fits(q[j].0, q[j].1) by {
        if find_pin(p, f) < p.len() {
            if j != find_pin(p, f) {
                assert(q[j] == p[j]);
            }
        } else if j < p.len() {
            assert(q[j] == p[j]);
        }
    }
}

proof fn lemma_pin_all_fit(p: Seq<(FieldView, ValueView)>, d: Seq<(FieldView, ValueView)>)
    requires
        pins_fit(p),
        pins_fit(d),
    ensures
        pins_fit(pin_all(p, d)),
    decreases d.len(),
{
    if d.len() > 0 {
        let rest = d.drop_last();
        assert(pins_fit(rest)) by {
            assert forall|j: int| 0 <= j < rest.len() implies is_leaf(#[trigger] rest[j].0) && fits(
                rest[j].0,
                rest[j].1,
            ) by {
                assert(rest[j] == d[j]);
            }
        }
        lemma_pin_all_fit(p, rest);
        assert(is_leaf(d[d.len() - 1].0) && fits(d[d.len() - 1].0, d[d.len() - 1].1));
        lemma_pin_fit(pin_all(p, rest), d.last().0, d.last().1);
    }
}


/// Two values of a field are the same as an edit sees them: dithering
/// levels as the same JSON number, every other value exactly.
pub open spec fn same_value(x: Option<ValueView>, y: Option<ValueView>) -> bool {
    match (x, y) {
        (Some(ValueView::Dither(a)), Some(ValueView::Dither(b))) => same_dither(a, b),
        _ => x == y,
    }
}

/// The shape of an edit of one side: three background channels on both
/// sides; in the edited side each format once and each of its settings
/// once, and only formats that the side had before.
pub open spec fn side_keyed(b: SideView, a: SideView) -> bool {
    &&& b.background.len() == 3
    &&& a.background.len() == 3
    &&& keys_distinct(a.options)
    &&& forall|j: int|
        0 <= j < a.options.len() ==> keys_distinct(#[trigger] a.options[j].1) && assoc_get(
            b.options,
            a.options[j].0,
        ) is Some
}

/// The shape of an edit of settings: two sides, each edited as
/// [`side_keyed`] says.
pub open spec fn well_keyed(b: SettingsView, a: SettingsView) -> bool {
    &&& b.sides.len() == 2
    &&& a.sides.len() == 2
    &&& side_keyed(b.sides[0], a.sides[0])
    &&& side_keyed(b.sides[1], a.sides[1])
}

proof fn lemma_push_if(
    acc: Seq<(FieldView, ValueView)>,
    c: bool,
    f: FieldView,
    v: ValueView,
    g: FieldView,
)
    ensures
        last_value(push_if(acc, c, f, v), g) == if c && f == g {
            Some(v)
        } else {
            last_value(acc, g)
        },
        pins_fit(acc) && is_leaf(f) && fits(f, v) ==> pins_fit(push_if(acc, c, f, v)),
{
    if c {
        lemma_last_push(acc, (f, v), g);
        let q = acc.push((f, v));
        assert forall|j: int| 0 <= j < q.len() && pins_fit(acc) && is_leaf(f) && fits(f, v) implies is_leaf(
            #[trigger] q[j].0,
        ) && fits(q[j].0, q[j].1) by {
            if j < acc.len() {
                assert(q[j] == acc[j]);
            }
        }
    }
}

proof fn lemma_assoc_last<V>(s: Seq<(Seq<char>, V)>, k: Seq<char>)
    requires
        keys_distinct(s),
        s.len() > 0,
    ensures
        assoc_get(s, k) == if s.last().0 == k {
            Some(s.last().1)
        } else {
            assoc_get(s.drop_last(), k)
        },
        keys_distinct(s.drop_last()),
        assoc_get(s.drop_last(), s.last().0) is None,
{
    let r = s.drop_last();
    let n = s.len() - 1;
    lemma_find_key_bound(r, k);
    lemma_find_key_bound(s, k);
    if s.last().0 == k {
        assert forall|j: int| 0 <= j < n implies (#[trigger] s[j]).0 != k by {}
        lemma_find_key(s, k, n);
    } else if find_key(r, k) < r.len() {
        let i = find_key(r, k) as int;
        assert forall|j: int| 0 <= j < i implies (#[trigger] s[j]).0 != k by {
            assert(s[j] == r[j]);
        }
        assert(s[i] == r[i]);
        lemma_find_key(s, k, i);
    } else {
        assert forall|j: int| 0 <= j < s.len() implies (#[trigger] s[j]).0 != k by {
            if j < n {
                assert(s[j] == r[j]);
            }
        }
        lemma_find_key(s, k, s.len() as int);
    }
    assert forall|a: int, b: int| 0 <= a < b < r.len() implies r[a].0 != r[b].0 by {
        assert(r[a] == s[a] && r[b] == s[b]);
    }
    lemma_find_key_bound(r, s.last().0);
    if find_key(r, s.last().0) < r.len() {
        let m = find_key(r, s.last().0) as int;
        assert(r[m] == s[m]);
    }
}

/// The last pin of setting `key` after the settings of one format were
/// compared: the edited value when it is not the value before, otherwise
/// the last pin before.
pub open spec fn value_edit(
    acc: Seq<(FieldView, ValueView)>,
    bo: Seq<(Seq<char>, i32)>,
    ao: Seq<(Seq<char>, i32)>,
    key: Seq<char>,
    g: FieldView,
) -> Option<ValueView> {
    match assoc_get(ao, key) {
        Some(av) => if assoc_get(bo, key) != Some(av) {
            Some(ValueView::Int(av))
        } else {
            last_value(acc, g)
        },
        None => last_value(acc, g),
    }
}

/// Whether `g` is a setting of format `k` of side `i`.
pub open spec fn is_value_of(g: FieldView, i: usize, k: Seq<char>) -> bool {
    g is OptionValue && g->OptionValue_0 == i && g->OptionValue_1 == k
}

proof fn lemma_value_diffs(
    acc: Seq<(FieldView, ValueView)>,
    i: usize,
    k: Seq<char>,
    bo: Seq<(Seq<char>, i32)>,
    ao: Seq<(Seq<char>, i32)>,
    g: FieldView,
)
    requires
        keys_distinct(ao),
    ensures
        is_value_of(g, i, k) ==> last_value(value_diffs(acc, i, k, bo, ao), g) == value_edit(
            acc,
            bo,
            ao,
            g->OptionValue_2,
            g,
        ),
        !is_value_of(g, i, k) ==> last_value(value_diffs(acc, i, k, bo, ao), g) == last_value(acc, g),
        pins_fit(acc) ==> pins_fit(value_diffs(acc, i, k, bo, ao)),
    decreases ao.len(),
{
    if ao.len() > 0 {
        let rest = ao.drop_last();
        let (key, v) = ao.last();
        lemma_assoc_last(ao, key);
        if is_value_of(g, i, k) {
            lemma_assoc_last(ao, g->OptionValue_2);
        }
        lemma_value_diffs(acc, i, k, bo, rest, g);
        lemma_push_if(
            value_diffs(acc, i, k, bo, rest),
            assoc_get(bo, key) != Some(v),
            FieldView::OptionValue(i, k, key),
            ValueView::Int(v),
            g,
        );
    }
}

/// The last pin of setting `g` after the settings of every format were
/// compared.
pub open spec fn sets_edit(
    acc: Seq<(FieldView, ValueView)>,
    bsets: Seq<(Seq<char>, Seq<(Seq<char>, i32)>)>,
    asets: Seq<(Seq<char>, Seq<(Seq<char>, i32)>)>,
    g: FieldView,
) -> Option<ValueView> {
    match assoc_get(asets, g->OptionValue_1) {
        Some(ao) => value_edit(acc, assoc_get(bsets, g->OptionValue_1)->0, ao, g->OptionValue_2, g),
        None => last_value(acc, g),
    }
}

/// Whether every format of `asets` is there once, with each setting once,
/// and is a format of `bsets`.
pub open spec fn sets_keyed(
    bsets: Seq<(Seq<char>, Seq<(Seq<char>, i32)>)>,
    asets: Seq<(Seq<char>, Seq<(Seq<char>, i32)>)>,
) -> bool {
    &&& keys_distinct(asets)
    &&& forall|j: int|
        0 <= j < asets.len() ==> keys_distinct(#[trigger] asets[j].1) && assoc_get(bsets, asets[j].0) is Some
}

proof fn lemma_sets_diffs(
    acc: Seq<(FieldView, ValueView)>,
    i: usize,
    bsets: Seq<(Seq<char>, Seq<(Seq<char>, i32)>)>,
    asets: Seq<(Seq<char>, Seq<(Seq<char>, i32)>)>,
    g: FieldView,
)
    requires
        sets_keyed(bsets, asets),
    ensures
        (g is OptionValue && g->OptionValue_0 == i) ==> last_value(sets_diffs(acc, i, bsets, asets), g)
            == sets_edit(acc, bsets, asets, g),
        !(g is OptionValue && g->OptionValue_0 == i) ==> last_value(sets_diffs(acc, i, bsets, asets), g)
            == last_value(acc, g),
        pins_fit(acc) ==> pins_fit(sets_diffs(acc, i, bsets, asets)),
    decreases asets.len(),
{
    if asets.len() > 0 {
        let rest = asets.drop_last();
        let (k, o) = asets.last();
        lemma_assoc_last(asets, k);
        assert(sets_keyed(bsets, rest)) by {
            assert forall|j: int| 0 <= j < rest.len() implies keys_distinct(#[trigger] rest[j].1)
                && assoc_get(bsets, rest[j].0) is Some by {
                assert(rest[j] == asets[j]);
            }
        }
        assert(keys_distinct(o) && assoc_get(bsets, k) is Some) by {
            assert(asets[asets.len() - 1] == asets.last());
        }
        lemma_sets_diffs(acc, i, bsets, rest, g);
        let prior = sets_diffs(acc, i, bsets, rest);
        let bo = assoc_get(bsets, k)->0;
        lemma_value_diffs(prior, i, k, bo, o, g);
        if g is OptionValue && g->OptionValue_0 == i {
            lemma_assoc_last(asets, g->OptionValue_1);
            if g->OptionValue_1 == k {
                assert(assoc_get(rest, k) is None) by {
                    lemma_find_key_bound(rest, k);
                    if find_key(rest, k) < rest.len() {
                        let m = find_key(rest, k) as int;
                        assert(asets[m] == rest[m]);
                        assert(asets[m].0 == asets[asets.len() - 1].0);
                    }
                }
            }
        }
    }
}

proof fn lemma_side_diffs(
    acc: Seq<(FieldView, ValueView)>,
    i: usize,
    b: SideView,
    a: SideView,
    g: FieldView,
)
    requires
        side_keyed(b, a),
    ensures
        field_side(g) != Some(i) ==> last_value(side_diffs(acc, i, b, a), g) == last_value(acc, g),
        field_side(g) == Some(i) && is_leaf(g) && get_in_side(a, g) is Some ==> last_value(
            side_diffs(acc, i, b, a),
            g,
        ) == if !same_value(get_in_side(b, g), get_in_side(a, g)) {
            get_in_side(a, g)
        } else {
            last_value(acc, g)
        },
        pins_fit(acc) ==> pins_fit(side_diffs(acc, i, b, a)),
{
    let s1 = push_if(acc, b.format != a.format, FieldView::Format(i), ValueView::Format(a.format));
    lemma_push_if(acc, b.format != a.format, FieldView::Format(i), ValueView::Format(a.format), g);
    assert(sets_keyed(b.options, a.options));
    lemma_sets_diffs(s1, i, b.options, a.options, g);
    let s2 = sets_diffs(s1, i, b.options, a.options);
    lemma_resize_diffs(s2, i, b, a, g);
    let s3 = resize_diffs(s2, i, b.resize, a.resize);
    lemma_palette_diffs(s3, i, b, a, g);
    let s4 = palette_diffs(s3, i, b.palette, a.palette);
    lemma_background_diffs(s4, i, b, a, g);
    if g is OptionValue && g->OptionValue_0 == i && get_in_side(a, g) is Some {
        let k = g->OptionValue_1;
        let key = g->OptionValue_2;
        assert(assoc_get(a.options, k) is Some);
        lemma_find_key_bound(a.options, k);
        let m = find_key(a.options, k) as int;
        assert(assoc_get(b.options, a.options[m].0) is Some);
    }
}

#[verifier::spinoff_prover]
#[verifier::rlimit(100)]
proof fn lemma_resize_diffs(acc: Seq<(FieldView, ValueView)>, i: usize, b: SideView, a: SideView, g: FieldView)
    ensures
        !(field_side(g) == Some(i) && crate::settings::is_resize_field(g)) ==> last_value(
            resize_diffs(acc, i, b.resize, a.resize),
            g,
        ) == last_value(acc, g),
        field_side(g) == Some(i) && crate::settings::is_resize_field(g) ==> last_value(
            resize_diffs(acc, i, b.resize, a.resize),
            g,
        ) == if get_in_side(b, g) != get_in_side(a, g) {
            get_in_side(a, g)
        } else {
            last_value(acc, g)
        },
        pins_fit(acc) ==> pins_fit(resize_diffs(acc, i, b.resize, a.resize)),
{
    let (x, y) = (b.resize, a.resize);
    let s1 = push_if(acc, x.enabled != y.enabled, FieldView::ResizeEnabled(i), ValueView::Bool(y.enabled));
    lemma_push_if(acc, x.enabled != y.enabled, FieldView::ResizeEnabled(i), ValueView::Bool(y.enabled), g);
    let s2 = push_if(s1, x.width != y.width, FieldView::Width(i), ValueView::U32(y.width));
    lemma_push_if(s1, x.width != y.width, FieldView::Width(i), ValueView::U32(y.width), g);
    let s3 = push_if(s2, x.height != y.height, FieldView::Height(i), ValueView::U32(y.height));
    lemma_push_if(s2, x.height != y.height, FieldView::Height(i), ValueView::U32(y.height), g);
    let s4 = push_if(s3, x.lock_ratio != y.lock_ratio, FieldView::LockRatio(i), ValueView::Bool(y.lock_ratio));
    lemma_push_if(s3, x.lock_ratio != y.lock_ratio, FieldView::LockRatio(i), ValueView::Bool(y.lock_ratio), g);
    let s5 = push_if(s4, x.crop != y.crop, FieldView::Crop(i), ValueView::Bool(y.crop));
    lemma_push_if(s4, x.crop != y.crop, FieldView::Crop(i), ValueView::Bool(y.crop), g);
    let s6 = push_if(s5, x.filter != y.filter, FieldView::Filter(i), ValueView::Filter(y.filter));
    lemma_push_if(s5, x.filter != y.filter, FieldView::Filter(i), ValueView::Filter(y.filter), g);
    let s7 = push_if(s6, x.premultiply != y.premultiply, FieldView::Premultiply(i), ValueView::Bool(y.premultiply));
    lemma_push_if(s6, x.premultiply != y.premultiply, FieldView::Premultiply(i), ValueView::Bool(y.premultiply), g);
    lemma_push_if(s7, x.linear_rgb != y.linear_rgb, FieldView::LinearRgb(i), ValueView::Bool(y.linear_rgb), g);
}

proof fn lemma_palette_diffs(acc: Seq<(FieldView, ValueView)>, i: usize, b: SideView, a: SideView, g: FieldView)
    ensures
        !(field_side(g) == Some(i) && crate::settings::is_palette_field(g)) ==> last_value(
            palette_diffs(acc, i, b.palette, a.palette),
            g,
        ) == last_value(acc, g),
        field_side(g) == Some(i) && crate::settings::is_palette_field(g) ==> last_value(
            palette_diffs(acc, i, b.palette, a.palette),
            g,
        ) == if !same_value(get_in_side(b, g), get_in_side(a, g)) {
            get_in_side(a, g)
        } else {
            last_value(acc, g)
        },
        pins_fit(acc) ==> pins_fit(palette_diffs(acc, i, b.palette, a.palette)),
{
    let (x, y) = (b.palette, a.palette);
    let s1 = push_if(acc, x.enabled != y.enabled, FieldView::PaletteEnabled(i), ValueView::Bool(y.enabled));
    lemma_push_if(acc, x.enabled != y.enabled, FieldView::PaletteEnabled(i), ValueView::Bool(y.enabled), g);
    let s2 = push_if(s1, x.colors != y.colors, FieldView::Colors(i), ValueView::U32(y.colors));
    lemma_push_if(s1, x.colors != y.colors, FieldView::Colors(i), ValueView::U32(y.colors), g);
    let s3 = push_if(s2, !same_dither(x.dither, y.dither), FieldView::Dither(i), ValueView::Dither(y.dither));
    lemma_push_if(s2, !same_dither(x.dither, y.dither), FieldView::Dither(i), ValueView::Dither(y.dither), g);
    lemma_push_if(s3, x.zx != y.zx, FieldView::Zx(i), ValueView::Bool(y.zx), g);
}

proof fn lemma_background_diffs(acc: Seq<(FieldView, ValueView)>, i: usize, b: SideView, a: SideView, g: FieldView)
    requires
        b.background.len() == 3,
        a.background.len() == 3,
    ensures
        !(g is Background && field_side(g) == Some(i)) ==> last_value(
            background_diffs(acc, i, b.background, a.background),
            g,
        ) == last_value(acc, g),
        g is Background && field_side(g) == Some(i) && get_in_side(a, g) is Some ==> last_value(
            background_diffs(acc, i, b.background, a.background),
            g,
        ) == if get_in_side(b, g) != get_in_side(a, g) {
            get_in_side(a, g)
        } else {
            last_value(acc, g)
        },
        pins_fit(acc) ==> pins_fit(background_diffs(acc, i, b.background, a.background)),
{
    let (x, y) = (b.background, a.background);
    let s1 = push_if(acc, x[0] != y[0], FieldView::Background(i, 0), ValueView::U8(y[0]));
    lemma_push_if(acc, x[0] != y[0], FieldView::Background(i, 0), ValueView::U8(y[0]), g);
    let s2 = push_if(s1, x[1] != y[1], FieldView::Background(i, 1), ValueView::U8(y[1]));
    lemma_push_if(s1, x[1] != y[1], FieldView::Background(i, 1), ValueView::U8(y[1]), g);
    lemma_push_if(s2, x[2] != y[2], FieldView::Background(i, 2), ValueView::U8(y[2]), g);
}


proof fn lemma_settings_diffs(b: SettingsView, a: SettingsView, g: FieldView)
    requires
        well_keyed(b, a),
        is_leaf(g),
        get_field(a, g) is Some,
    ensures
        last_value(settings_diffs(b, a), g) == if !same_value(get_field(b, g), get_field(a, g)) {
            get_field(a, g)
        } else {
            None
        },
        pins_fit(settings_diffs(b, a)),
{
    let e = Seq::<(FieldView, ValueView)>::empty();
    assert(last_value(e, g) is None);
    let s1 = push_if(e, b.rotation != a.rotation, FieldView::Rotation, ValueView::U16(a.rotation));
    lemma_push_if(e, b.rotation != a.rotation, FieldView::Rotation, ValueView::U16(a.rotation), g);
    lemma_side_diffs(s1, 0, b.sides[0], a.sides[0], g);
    let s2 = side_diffs(s1, 0, b.sides[0], a.sides[0]);
    lemma_side_diffs(s2, 1, b.sides[1], a.sides[1], g);
    let s3 = side_diffs(s2, 1, b.sides[1], a.sides[1]);
    lemma_push_if(
        s3,
        b.export_side != a.export_side,
        FieldView::ExportSide,
        ValueView::Index(a.export_side),
        g,
    );
}

/// Exceptions pin exactly what an edit changed: after recording an edit
/// from `before` to `after` on top of exceptions `p`, resolving against
/// common settings `c` gives each single-value field the value the edit
/// gave it when the edit changed it, and otherwise its earlier exception,
/// or its common value when it has none.
pub proof fn lemma_record_pins_edits(
    p: Seq<(FieldView, ValueView)>,
    before: SettingsView,
    after: SettingsView,
    c: SettingsView,
    g: FieldView,
)
    requires
        distinct_fields(p),
        pins_fit(p),
        well_keyed(before, after),
        is_leaf(g),
        get_field(after, g) is Some,
        spec_resolve(pin_all(p, settings_diffs(before, after)), c) is Ok,
    ensures
        get_field(spec_resolve(pin_all(p, settings_diffs(before, after)), c)->Ok_0, g) == if !same_value(
            get_field(before, g),
            get_field(after, g),
        ) {
            get_field(after, g)
        } else {
            match last_value(p, g) {
                Some(v) => Some(v),
                None => get_field(c, g),
            }
        },
{
    let d = settings_diffs(before, after);
    lemma_settings_diffs(before, after, g);
    lemma_pin_all(p, d, g);
    lemma_pin_all_fit(p, d);
    lemma_resolve_inherits(pin_all(p, d), c, g);
}

/// Recording an edit and resolving it against the settings that were
/// edited gives the edit back: every single-value field reads the value
/// the edit gave it (a dithering level, as the same JSON number).
pub proof fn lemma_record_then_resolve(before: SettingsView, after: SettingsView, g: FieldView)
    requires
        well_keyed(before, after),
        is_leaf(g),
        get_field(after, g) is Some,
        spec_resolve(pin_all(Seq::empty(), settings_diffs(before, after)), before) is Ok,
    ensures
        same_value(
            get_field(spec_resolve(pin_all(Seq::empty(), settings_diffs(before, after)), before)->Ok_0, g),
            get_field(after, g),
        ),
{
    let e = Seq::<(FieldView, ValueView)>::empty();
    assert(last_value(e, g) is None);
    lemma_record_pins_edits(e, before, after, before, g);
}


/// With no exceptions, resolving gives the common settings themselves
/// when they are valid, and their first problem otherwise.
pub proof fn lemma_no_exceptions(common: SettingsView)
    ensures
        spec_resolve(Seq::empty(), common) == match settings_problem(common) {
            Some(e) => Err(e),
            None => Ok::<SettingsView, crate::settings::SettingsErrorView>(common),
        },
{
    let e = Seq::<(FieldView, ValueView)>::empty();
    assert(set_pins(e) == e);
    assert(leaf_pins(e) == e);
    assert(apply_pins(common, e) == Ok::<SettingsView, FieldView>(common));
}


proof fn lemma_entry_found<V>(s: Seq<(Seq<char>, V)>, j: int)
    requires
        keys_distinct(s),
        0 <= j < s.len(),
    ensures
        assoc_get(s, s[j].0) == Some(s[j].1),
{
    assert forall|m: int| 0 <= m < j implies (#[trigger] s[m]).0 != s[j].0 by {}
    lemma_find_key(s, s[j].0, j);
}

proof fn lemma_value_diffs_same(
    acc: Seq<(FieldView, ValueView)>,
    i: usize,
    k: Seq<char>,
    bo: Seq<(Seq<char>, i32)>,
    ao: Seq<(Seq<char>, i32)>,
)
    requires
        forall|j: int| 0 <= j < ao.len() ==> assoc_get(bo, #[trigger] ao[j].0) == Some(ao[j].1),
    ensures
        value_diffs(acc, i, k, bo, ao) == acc,
    decreases ao.len(),
{
    if ao.len() > 0 {
        let rest = ao.drop_last();
        assert forall|j: int| 0 <= j < rest.len() implies assoc_get(bo, #[trigger] rest[j].0) == Some(
            rest[j].1,
        ) by {
            assert(rest[j] == ao[j]);
        }
        lemma_value_diffs_same(acc, i, k, bo, rest);
        assert(ao.last() == ao[ao.len() - 1]);
    }
}

proof fn lemma_sets_diffs_same(
    acc: Seq<(FieldView, ValueView)>,
    i: usize,
    b: Seq<(Seq<char>, Seq<(Seq<char>, i32)>)>,
    a: Seq<(Seq<char>, Seq<(Seq<char>, i32)>)>,
)
    requires
        forall|j: int| 0 <= j < a.len() ==> assoc_get(b, #[trigger] a[j].0) == Some(a[j].1),
        forall|j: int| 0 <= j < a.len() ==> keys_distinct(#[trigger] a[j].1),
    ensures
        sets_diffs(acc, i, b, a) == acc,
    decreases a.len(),
{
    if a.len() > 0 {
        let rest = a.drop_last();
        assert forall|j: int| 0 <= j < rest.len() implies assoc_get(b, #[trigger] rest[j].0) == Some(
            rest[j].1,
        ) && keys_distinct(rest[j].1) by {
            assert(rest[j] == a[j]);
        }
        lemma_sets_diffs_same(acc, i, b, rest);
        let (k, o) = a.last();
        assert(a.last() == a[a.len() - 1]);
        assert(keys_distinct(o));
        assert forall|j: int| 0 <= j < o.len() implies assoc_get(o, #[trigger] o[j].0) == Some(o[j].1) by {
            lemma_entry_found(o, j);
        }
        lemma_value_diffs_same(acc, i, k, o, o);
    }
}

/// Whether each format of a side is there once and each of its settings
/// once, and the background has three channels.
pub open spec fn side_unique(d: SideView) -> bool {
    &&& d.background.len() == 3
    &&& keys_distinct(d.options)
    &&& forall|j: int| 0 <= j < d.options.len() ==> keys_distinct(#[trigger] d.options[j].1)
}

proof fn lemma_side_diffs_same(acc: Seq<(FieldView, ValueView)>, i: usize, d: SideView)
    requires
        side_unique(d),
    ensures
        side_diffs(acc, i, d, d) == acc,
{
    assert forall|j: int| 0 <= j < d.options.len() implies assoc_get(d.options, #[trigger] d.options[j].0)
        == Some(d.options[j].1) by {
        lemma_entry_found(d.options, j);
    }
    lemma_sets_diffs_same(acc, i, d.options, d.options);
    assert(same_dither(d.palette.dither, d.palette.dither));
}

/// Recording settings against themselves pins nothing: a field is pinned
/// only when an edit changed it.
pub proof fn lemma_record_unchanged(s: SettingsView)
    requires
        s.sides.len() == 2,
        side_unique(s.sides[0]),
        side_unique(s.sides[1]),
    ensures
        settings_diffs(s, s) == Seq::<(FieldView, ValueView)>::empty(),
{
    let e = Seq::<(FieldView, ValueView)>::empty();
    lemma_side_diffs_same(e, 0, s.sides[0]);
    lemma_side_diffs_same(e, 1, s.sides[1]);
}

} // verus!
