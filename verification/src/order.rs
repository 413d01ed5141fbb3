//! Deterministic ordering of report arrays: sorted sets of strings and of
//! warnings, and the stable sort of PCI devices by bus address.
use vstd::prelude::*;

use crate::text::{lemma_less_asymmetric, lemma_less_irreflexive, lemma_less_total, lemma_less_transitive, seq_less, str_eq, str_less};
use crate::{pci_models, warning_models, PciDevice, PciModel, Warning, WarningModel};

verus! {

// ---------------------------------------------------------------------------
// Generic order facts
// ---------------------------------------------------------------------------

/// Every element comes strictly before every later one.
pub open spec fn strictly_sorted_by<T>(s: Seq<T>, less: spec_fn(T, T) -> bool) -> bool {
    forall|i: int, j: int| 0 <= i < j < s.len() ==> less(#[trigger] s[i], #[trigger] s[j])
}

pub open spec fn transitive<T>(less: spec_fn(T, T) -> bool) -> bool {
    forall|a: T, b: T, c: T| #[trigger] less(a, b) && #[trigger] less(b, c) ==> less(a, c)
}

pub open spec fn total<T>(less: spec_fn(T, T) -> bool) -> bool {
    forall|a: T, b: T| a == b || #[trigger] less(a, b) || #[trigger] less(b, a)
}

pub open spec fn irreflexive<T>(less: spec_fn(T, T) -> bool) -> bool {
    forall|a: T| !#[trigger] less(a, a)
}

/// A strict total order.
pub open spec fn strict_total_order<T>(less: spec_fn(T, T) -> bool) -> bool {
    transitive(less) && total(less) && irreflexive(less)
}

/// Inserting an element between the smaller and the larger ones keeps a sequence strictly sorted.
pub proof fn lemma_insert_keeps_sorted<T>(s: Seq<T>, p: int, x: T, less: spec_fn(T, T) -> bool)
    requires
        strictly_sorted_by(s, less),
        transitive(less),
        0 <= p <= s.len(),
        forall|k: int| 0 <= k < p ==> less(#[trigger] s[k], x),
        p < s.len() ==> less(x, s[p]),
    ensures
        strictly_sorted_by(s.insert(p, x), less),
{
    let t = s.insert(p, x);
    assert forall|i: int, j: int| 0 <= i < j < t.len() implies less(#[trigger] t[i], #[trigger] t[j]) by {
        if j < p {
            assert(t[i] == s[i] && t[j] == s[j]);
        } else if j == p {
            assert(t[i] == s[i]);
        } else if i < p {
            assert(t[i] == s[i] && t[j] == s[j - 1]);
        } else if i == p {
            assert(t[j] == s[j - 1]);
            if j - 1 > p {
                assert(less(s[p], s[j - 1]));
            }
        } else {
            assert(t[i] == s[i - 1] && t[j] == s[j - 1]);
        }
    }
}

/// Inserting into a sequence inserts into its set of elements.
pub proof fn lemma_insert_to_set<T>(s: Seq<T>, p: int, x: T)
    requires
        0 <= p <= s.len(),
    ensures
        s.insert(p, x).to_set() == s.to_set().insert(x),
{
    let t = s.insert(p, x);
    assert forall|a: T| t.to_set().contains(a) <==> s.to_set().insert(x).contains(a) by {
        if t.contains(a) {
            let i = choose|i: int| 0 <= i < t.len() && t[i] == a;
            if i < p {
                assert(s[i] == a);
            } else if i > p {
                assert(s[i - 1] == a);
            }
        }
        if s.contains(a) {
            let i = choose|i: int| 0 <= i < s.len() && s[i] == a;
            if i < p {
                assert(t[i] == a);
            } else {
                assert(t[i + 1] == a);
            }
        }
        if a == x {
            assert(t[p] == x);
        }
    }
    assert(t.to_set() =~= s.to_set().insert(x));
}

pub proof fn lemma_take_push<T>(s: Seq<T>, i: int)
    requires
        0 <= i < s.len(),
    ensures
        s.take(i + 1) == s.take(i).push(s[i]),
        s.take(i + 1).to_set() == s.take(i).to_set().insert(s[i]),
{
    assert(s.take(i + 1) =~= s.take(i).push(s[i]));
    s.take(i).lemma_push_to_set_commute(s[i]);
}

// ---------------------------------------------------------------------------
// Sorted sets of strings
// ---------------------------------------------------------------------------

/// The character sequences of some strings.
pub open spec fn texts(s: Seq<String>) -> Seq<Seq<char>> {
    s.map_values(|x: String| x@)
}

/// Lexicographic order on text.
pub open spec fn text_less() -> spec_fn(Seq<char>, Seq<char>) -> bool {
    |a: Seq<char>, b: Seq<char>| seq_less(a, b)
}

pub proof fn lemma_text_order()
    ensures
        strict_total_order(text_less()),
{
    assert forall|a: Seq<char>, b: Seq<char>, c: Seq<char>|
        #[trigger] text_less()(a, b) && #[trigger] text_less()(b, c) implies text_less()(a, c) by {
        lemma_less_transitive(a, b, c);
    }
    assert forall|a: Seq<char>, b: Seq<char>|
        a == b || #[trigger] text_less()(a, b) || #[trigger] text_less()(b, a) by {
        lemma_less_total(a, b);
    }
    assert forall|a: Seq<char>| !#[trigger] text_less()(a, a) by {
        lemma_less_irreflexive(a);
    }
}

/// Inserts `x` into the strictly sorted `r` unless it is already there.
fn insert_text(r: &mut Vec<String>, x: String)
    requires
        strictly_sorted_by(texts(old(r)@), text_less()),
    ensures
        strictly_sorted_by(texts(final(r)@), text_less()),
        texts(final(r)@).to_set() == texts(old(r)@).to_set().insert(x@),
{
    proof {
        lemma_text_order();
    }
    let mut p: usize = 0;
    while p < r.len() && str_less(r[p].as_str(), x.as_str())
        invariant
            p <= r@.len(),
            forall|k: int| 0 <= k < p ==> seq_less(#[trigger] r@[k]@, x@),
        decreases r@.len() - p,
    {
        p = p + 1;
    }
    if p < r.len() && str_eq(r[p].as_str(), x.as_str()) {
        proof {
            assert(texts(r@)[p as int] == x@);
            assert(texts(r@).to_set().insert(x@) =~= texts(r@).to_set());
        }
        return;
    }
    let ghost before = r@;
    proof {
        if p < r@.len() {
            lemma_less_total(r@[p as int]@, x@);
        }
        assert forall|k: int| 0 <= k < p implies text_less()(#[trigger] texts(before)[k], x@) by {
            assert(seq_less(before[k]@, x@));
        }
        lemma_insert_keeps_sorted(texts(before), p as int, x@, text_less());
        lemma_insert_to_set(texts(before), p as int, x@);
    }
    r.insert(p, x);
    proof {
        assert(texts(r@) =~= texts(before).insert(p as int, r@[p as int]@));
    }
}

/// The distinct strings of `v` in strictly increasing order
/// (`sort_unstable` followed by `dedup`).
pub fn sorted_unique_strings(v: &Vec<String>) -> (r: Vec<String>)
    ensures
        strictly_sorted_by(texts(r@), text_less()),
        texts(r@).to_set() == texts(v@).to_set(),
{
    let mut r: Vec<String> = Vec::new();
    let n = v.len();
    for i in 0..n
        invariant
            n == v@.len(),
            strictly_sorted_by(texts(r@), text_less()),
            texts(r@).to_set() == texts(v@).take(i as int).to_set(),
    {
        let x = v[i].clone();
        insert_text(&mut r, x);
        proof {
            lemma_take_push(texts(v@), i as int);
        }
    }
    proof {
        assert(texts(v@).take(n as int) =~= texts(v@));
        assert(texts(r@).to_set() =~= texts(v@).to_set());
    }
    r
}

// ---------------------------------------------------------------------------
// Sorted sets of warnings
// ---------------------------------------------------------------------------

/// The derived order of `Warning`: by source, then by message.
pub open spec fn warning_less() -> spec_fn(WarningModel, WarningModel) -> bool {
    |a: WarningModel, b: WarningModel|
        seq_less(a.source, b.source) || (a.source == b.source && seq_less(a.message, b.message))
}

pub proof fn lemma_warning_order()
    ensures
        strict_total_order(warning_less()),
{
    assert forall|a: WarningModel, b: WarningModel, c: WarningModel|
        #[trigger] warning_less()(a, b) && #[trigger] warning_less()(b, c) implies warning_less()(
        a,
        c,
    ) by {
        if seq_less(a.source, b.source) && seq_less(b.source, c.source) {
            lemma_less_transitive(a.source, b.source, c.source);
        }
        if seq_less(a.message, b.message) && seq_less(b.message, c.message) {
            lemma_less_transitive(a.message, b.message, c.message);
        }
    }
    assert forall|a: WarningModel, b: WarningModel|
        a == b || #[trigger] warning_less()(a, b) || #[trigger] warning_less()(b, a) by {
        lemma_less_total(a.source, b.source);
        lemma_less_total(a.message, b.message);
    }
    assert forall|a: WarningModel| !#[trigger] warning_less()(a, a) by {
        lemma_less_irreflexive(a.source);
        lemma_less_irreflexive(a.message);
    }
}

/// `warning_less` on executable warnings.
pub fn warning_before(a: &Warning, b: &Warning) -> (r: bool)
    ensures
        r == warning_less()(a@, b@),
{
    if str_less(a.source.as_str(), b.source.as_str()) {
        true
    } else if str_eq(a.source.as_str(), b.source.as_str()) {
        str_less(a.message.as_str(), b.message.as_str())
    } else {
        false
    }
}

/// Equality of the models of two warnings.
pub fn same_warning(a: &Warning, b: &Warning) -> (r: bool)
    ensures
        r == (a@ == b@),
{
    str_eq(a.source.as_str(), b.source.as_str()) && str_eq(a.message.as_str(), b.message.as_str())
}

/// A copy of a warning.
pub fn copy_warning(w: &Warning) -> (r: Warning)
    ensures
        r@ == w@,
{
    Warning { source: w.source.clone(), message: w.message.clone() }
}

fn insert_warning(r: &mut Vec<Warning>, x: Warning)
    requires
        strictly_sorted_by(warning_models(old(r)@), warning_less()),
    ensures
        strictly_sorted_by(warning_models(final(r)@), warning_less()),
        warning_models(final(r)@).to_set() == warning_models(old(r)@).to_set().insert(x@),
{
    proof {
        lemma_warning_order();
    }
    let mut p: usize = 0;
    while p < r.len() && warning_before(&r[p], &x)
        invariant
            p <= r@.len(),
            forall|k: int| 0 <= k < p ==> warning_less()(#[trigger] r@[k]@, x@),
        decreases r@.len() - p,
    {
        p = p + 1;
    }
    if p < r.len() && same_warning(&r[p], &x) {
        proof {
            assert(warning_models(r@)[p as int] == x@);
            assert(warning_models(r@).to_set().insert(x@) =~= warning_models(r@).to_set());
        }
        return;
    }
    let ghost before = r@;
    proof {
        assert forall|k: int| 0 <= k < p implies warning_less()(
            #[trigger] warning_models(before)[k],
            x@,
        ) by {
            assert(warning_less()(before[k]@, x@));
        }
        lemma_insert_keeps_sorted(warning_models(before), p as int, x@, warning_less());
        lemma_insert_to_set(warning_models(before), p as int, x@);
    }
    r.insert(p, x);
    proof {
        assert(warning_models(r@) =~= warning_models(before).insert(p as int, r@[p as int]@));
    }
}

/// The distinct warnings of `v` in strictly increasing order (`sort` followed by `dedup`).
pub fn sorted_unique_warnings(v: &Vec<Warning>) -> (r: Vec<Warning>)
    ensures
        strictly_sorted_by(warning_models(r@), warning_less()),
        warning_models(r@).to_set() == warning_models(v@).to_set(),
{
    let mut r: Vec<Warning> = Vec::new();
    let n = v.len();
    for i in 0..n
        invariant
            n == v@.len(),
            strictly_sorted_by(warning_models(r@), warning_less()),
            warning_models(r@).to_set() == warning_models(v@).take(i as int).to_set(),
    {
        let x = copy_warning(&v[i]);
        insert_warning(&mut r, x);
        proof {
            lemma_take_push(warning_models(v@), i as int);
        }
    }
    proof {
        assert(warning_models(v@).take(n as int) =~= warning_models(v@));
    }
    r
}

// ---------------------------------------------------------------------------
// Stable sort of PCI devices by bus address
// ---------------------------------------------------------------------------

/// No device comes after one with a larger bus address.
pub open spec fn sorted_by_bus(s: Seq<PciModel>) -> bool {
    forall|i: int, j: int|
        0 <= i < j < s.len() ==> !seq_less(#[trigger] s[j].bus_id, #[trigger] s[i].bus_id)
}

/// The devices with bus address `k`.
pub open spec fn on_bus(k: Seq<char>) -> spec_fn(PciModel) -> bool {
    |d: PciModel| d.bus_id == k
}

/// For every bus address, `a` and `b` hold the same devices in the same order:
/// `a` is a stable rearrangement of `b`.
pub open spec fn same_per_bus(a: Seq<PciModel>, b: Seq<PciModel>) -> bool {
    forall|k: Seq<char>| #[trigger] a.filter(on_bus(k)) == b.filter(on_bus(k))
}

pub proof fn lemma_filter_push<T>(s: Seq<T>, x: T, pred: spec_fn(T) -> bool)
    ensures
        s.push(x).filter(pred) == if pred(x) {
            s.filter(pred).push(x)
        } else {
            s.filter(pred)
        },
{
    reveal_with_fuel(Seq::<_>::filter, 1);
    assert(s.push(x).drop_last() =~= s);
}

/// Inserting after every device with a bus address up to `x`'s keeps the
/// per-bus order and adds `x` after the devices of its own bus.
proof fn lemma_insert_per_bus(r: Seq<PciModel>, p: int, x: PciModel, k: Seq<char>)
    requires
        0 <= p <= r.len(),
        forall|q: int| p <= q < r.len() ==> seq_less(x.bus_id, #[trigger] r[q].bus_id),
    ensures
        r.insert(p, x).filter(on_bus(k)) == if x.bus_id == k {
            r.filter(on_bus(k)).push(x)
        } else {
            r.filter(on_bus(k))
        },
{
    broadcast use Seq::filter_distributes_over_add;

    let head = r.take(p);
    let tail = r.skip(p);
    assert(r =~= head + tail);
    assert(r.insert(p, x) =~= head.push(x) + tail);
    lemma_filter_push(head, x, on_bus(k));
    if x.bus_id == k {
        assert forall|q: int| 0 <= q < tail.len() implies !on_bus(k)(#[trigger] tail[q]) by {
            assert(tail[q] == r[q + p]);
            lemma_less_irreflexive(k);
        }
        lemma_filter_none(tail, on_bus(k));
        assert(head.filter(on_bus(k)) + tail.filter(on_bus(k)) =~= head.filter(on_bus(k)));
        assert(head.filter(on_bus(k)).push(x) + tail.filter(on_bus(k)) =~= head.filter(
            on_bus(k),
        ).push(x));
    }
}

pub proof fn lemma_filter_none<T>(s: Seq<T>, pred: spec_fn(T) -> bool)
    requires
        forall|q: int| 0 <= q < s.len() ==> !pred(#[trigger] s[q]),
    ensures
        s.filter(pred) == Seq::<T>::empty(),
    decreases s.len(),
{
    reveal_with_fuel(Seq::<_>::filter, 1);
    if s.len() > 0 {
        lemma_filter_none(s.drop_last(), pred);
    }
    assert(s.filter(pred) =~= Seq::<T>::empty());
}

/// The elements of `v` in reverse order.
pub fn reversed<T>(v: Vec<T>) -> (r: Vec<T>)
    ensures
        r@ == v@.reverse(),
{
    let ghost input = v@;
    let mut src = v;
    let mut r: Vec<T> = Vec::new();
    while src.len() > 0
        invariant
            src@ == input.take(src@.len() as int),
            r@ == input.skip(src@.len() as int).reverse(),
            src@.len() <= input.len(),
        decreases src@.len(),
    {
        let ghost k = src@.len() as int;
        let x = src.pop().unwrap();
        r.push(x);
        proof {
            assert(input.take(k - 1) =~= input.take(k).drop_last());
            assert(input.skip(k - 1).reverse() =~= input.skip(k).reverse().push(input[k - 1]));
        }
    }
    proof {
        assert(input.skip(0) =~= input);
    }
    r
}

/// `v` stably sorted by bus address (`sort_by` on `bus_id`).
pub fn sort_by_bus(v: Vec<PciDevice>) -> (r: Vec<PciDevice>)
    ensures
        sorted_by_bus(pci_models(r@)),
        same_per_bus(pci_models(r@), pci_models(v@)),
{
    let ghost input = v@;
    let mut r: Vec<PciDevice> = Vec::new();
    let mut rest = reversed(v);
    proof {
        assert(pci_models(r@) =~= pci_models(input).take(0));
    }
    while rest.len() > 0
        invariant
            rest@ == input.skip(r@.len() as int).reverse(),
            r@.len() <= input.len(),
            sorted_by_bus(pci_models(r@)),
            forall|k: Seq<char>|
                #[trigger] pci_models(r@).filter(on_bus(k)) == pci_models(input).take(
                    r@.len() as int,
                ).filter(on_bus(k)),
        decreases rest@.len(),
    {
        let ghost i = r@.len() as int;
        let x = rest.pop().unwrap();
        proof {
            assert(x == input[i]);
        }
        let mut p: usize = 0;
        while p < r.len() && !str_less(x.bus_id.as_str(), r[p].bus_id.as_str())
            invariant
                p <= r@.len(),
                forall|q: int| 0 <= q < p ==> !seq_less(x.bus_id@, #[trigger] r@[q].bus_id@),
            decreases r@.len() - p,
        {
            p = p + 1;
        }
        let ghost before = pci_models(r@);
        proof {
            assert forall|q: int| p <= q < before.len() implies seq_less(
                x.bus_id@,
                #[trigger] before[q].bus_id,
            ) by {
                if q > p {
                    assert(!seq_less(before[q].bus_id, before[p as int].bus_id));
                    lemma_less_total(before[q].bus_id, before[p as int].bus_id);
                    if seq_less(before[p as int].bus_id, before[q].bus_id) {
                        lemma_less_transitive(x.bus_id@, before[p as int].bus_id, before[q].bus_id);
                    }
                }
            }
            assert forall|k: Seq<char>|
                #[trigger] before.insert(p as int, x@).filter(on_bus(k)) == pci_models(
                    input,
                ).take(i + 1).filter(on_bus(k)) by {
                lemma_insert_per_bus(before, p as int, x@, k);
                assert(pci_models(input).take(i + 1) =~= pci_models(input).take(i).push(x@));
                lemma_filter_push(pci_models(input).take(i), x@, on_bus(k));
            }
            assert forall|a: int, b: int| 0 <= a < b < before.len() + 1 implies !seq_less(
                #[trigger] before.insert(p as int, x@)[b].bus_id,
                #[trigger] before.insert(p as int, x@)[a].bus_id,
            ) by {
                let t = before.insert(p as int, x@);
                if b < p {
                    assert(t[a] == before[a] && t[b] == before[b]);
                } else if b == p {
                    assert(t[a] == before[a]);
                } else if a < p {
                    assert(t[a] == before[a] && t[b] == before[b - 1]);
                    lemma_less_asymmetric(x.bus_id@, before[b - 1].bus_id);
                    if seq_less(before[b - 1].bus_id, before[a].bus_id) {
                        lemma_less_total(x.bus_id@, before[a].bus_id);
                        if seq_less(before[a].bus_id, x.bus_id@) {
                            lemma_less_transitive(before[b - 1].bus_id, before[a].bus_id, x.bus_id@);
                        }
                    }
                } else if a == p {
                    assert(t[b] == before[b - 1]);
                    lemma_less_asymmetric(x.bus_id@, before[b - 1].bus_id);
                } else {
                    assert(t[a] == before[a - 1] && t[b] == before[b - 1]);
                }
            }
        }
        r.insert(p, x);
        proof {
            assert(pci_models(r@) =~= before.insert(p as int, x@));
            assert(input.skip(i + 1).reverse() =~= input.skip(i).reverse().drop_last());
        }
    }
    proof {
        assert(pci_models(input).take(input.len() as int) =~= pci_models(input));
    }
    r
}

} // verus!

verus! {

// ---------------------------------------------------------------------------
// Uniqueness of sorted results
// ---------------------------------------------------------------------------

/// Everything the filter keeps comes from the sequence.
pub proof fn lemma_filter_from<T>(s: Seq<T>, pred: spec_fn(T) -> bool)
    ensures
        forall|i: int| 0 <= i < s.filter(pred).len() ==> s.contains(#[trigger] s.filter(pred)[i]),
    decreases s.len(),
{
    reveal_with_fuel(Seq::<_>::filter, 1);
    if s.len() > 0 {
        lemma_filter_from(s.drop_last(), pred);
        let f = s.filter(pred);
        let g = s.drop_last().filter(pred);
        assert forall|i: int| 0 <= i < f.len() implies s.contains(#[trigger] f[i]) by {
            if i < g.len() {
                assert(f[i] == g[i]);
                let j = choose|j: int| 0 <= j < s.drop_last().len() && s.drop_last()[j] == g[i];
                assert(s[j] == g[i]);
            } else {
                assert(f[i] == s.last());
                assert(s[s.len() - 1] == s.last());
            }
        }
    }
}

/// Two strictly sorted sequences with the same elements are equal.
pub proof fn lemma_sorted_same_set_equal<T>(a: Seq<T>, b: Seq<T>, less: spec_fn(T, T) -> bool)
    requires
        strict_total_order(less),
        strictly_sorted_by(a, less),
        strictly_sorted_by(b, less),
        a.to_set() == b.to_set(),
    ensures
        a == b,
    decreases a.len() + b.len(),
{
    if a.len() == 0 || b.len() == 0 {
        if a.len() > 0 {
            assert(a.to_set().contains(a[0]));
        }
        if b.len() > 0 {
            assert(b.to_set().contains(b[0]));
        }
        assert(a =~= b);
    } else {
        let x = a.last();
        let y = b.last();
        assert(a.to_set().contains(x));
        assert(b.to_set().contains(y));
        let i = choose|i: int| 0 <= i < b.len() && b[i] == x;
        let j = choose|j: int| 0 <= j < a.len() && a[j] == y;
        if x != y {
            if i < b.len() - 1 {
                assert(less(b[i], b[b.len() - 1]));
            }
            if j < a.len() - 1 {
                assert(less(a[j], a[a.len() - 1]));
            }
            assert(less(x, y) && less(y, x));
            assert(less(x, x));
        }
        let a1 = a.drop_last();
        let b1 = b.drop_last();
        assert forall|v: T| a1.to_set().contains(v) <==> b1.to_set().contains(v) by {
            if a1.contains(v) {
                let k = choose|k: int| 0 <= k < a1.len() && a1[k] == v;
                assert(less(a[k], a[a.len() - 1]));
                assert(a.to_set().contains(v));
                let m = choose|m: int| 0 <= m < b.len() && b[m] == v;
                if m == b.len() - 1 {
                    assert(less(v, v));
                }
                assert(b1[m] == v);
            }
            if b1.contains(v) {
                let k = choose|k: int| 0 <= k < b1.len() && b1[k] == v;
                assert(less(b[k], b[b.len() - 1]));
                assert(b.to_set().contains(v));
                let m = choose|m: int| 0 <= m < a.len() && a[m] == v;
                if m == a.len() - 1 {
                    assert(less(v, v));
                }
                assert(a1[m] == v);
            }
        }
        assert(a1.to_set() =~= b1.to_set());
        assert forall|p: int, q: int| 0 <= p < q < a1.len() implies less(
            #[trigger] a1[p],
            #[trigger] a1[q],
        ) by {
            assert(less(a[p], a[q]));
        }
        assert forall|p: int, q: int| 0 <= p < q < b1.len() implies less(
            #[trigger] b1[p],
            #[trigger] b1[q],
        ) by {
            assert(less(b[p], b[q]));
        }
        lemma_sorted_same_set_equal(a1, b1, less);
        assert(a =~= a1.push(x));
        assert(b =~= b1.push(y));
    }
}

/// Two sequences sorted by bus address that hold the same devices per bus
/// address are equal: the stable sort has one result.
pub proof fn lemma_bus_sorted_equal(a: Seq<PciModel>, b: Seq<PciModel>)
    requires
        sorted_by_bus(a),
        sorted_by_bus(b),
        same_per_bus(a, b),
    ensures
        a == b,
    decreases a.len(),
{
    reveal_with_fuel(Seq::<_>::filter, 1);
    if a.len() == 0 || b.len() == 0 {
        if b.len() > 0 {
            let k = b[0].bus_id;
            b.lemma_filter_contains(on_bus(k), 0);
            assert(a.filter(on_bus(k)).len() == 0);
        }
        if a.len() > 0 {
            let k = a[0].bus_id;
            a.lemma_filter_contains(on_bus(k), 0);
            assert(b.filter(on_bus(k)).len() == 0);
        }
        assert(a =~= b);
    } else {
        let x = a.last();
        let y = b.last();
        let kx = x.bus_id;
        let ky = y.bus_id;
        assert(a[a.len() - 1] == x);
        assert(b[b.len() - 1] == y);
        a.lemma_filter_contains(on_bus(kx), a.len() - 1);
        b.lemma_filter_contains(on_bus(ky), b.len() - 1);
        assert(a.filter(on_bus(kx)) == b.filter(on_bus(kx)));
        assert(a.filter(on_bus(ky)) == b.filter(on_bus(ky)));
        lemma_filter_from(b, on_bus(kx));
        lemma_filter_from(a, on_bus(ky));
        let p = choose|p: int| 0 <= p < b.filter(on_bus(kx)).len() && b.filter(on_bus(kx))[p] == x;
        assert(b.contains(b.filter(on_bus(kx))[p]));
        let i = choose|i: int| 0 <= i < b.len() && b[i] == x;
        let q = choose|q: int| 0 <= q < a.filter(on_bus(ky)).len() && a.filter(on_bus(ky))[q] == y;
        assert(a.contains(a.filter(on_bus(ky))[q]));
        let j = choose|j: int| 0 <= j < a.len() && a[j] == y;
        if i < b.len() - 1 {
            assert(!seq_less(b[b.len() - 1].bus_id, b[i].bus_id));
        } else {
            lemma_less_irreflexive(ky);
        }
        if j < a.len() - 1 {
            assert(!seq_less(a[a.len() - 1].bus_id, a[j].bus_id));
        } else {
            lemma_less_irreflexive(kx);
        }
        lemma_less_total(kx, ky);
        assert(kx == ky);
        let a1 = a.drop_last();
        let b1 = b.drop_last();
        assert(a.filter(on_bus(kx)) == a1.filter(on_bus(kx)).push(x));
        assert(b.filter(on_bus(kx)) == b1.filter(on_bus(kx)).push(y));
        assert(x == a.filter(on_bus(kx)).last());
        assert(y == b.filter(on_bus(kx)).last());
        assert forall|k: Seq<char>| #[trigger] a1.filter(on_bus(k)) == b1.filter(on_bus(k)) by {
            assert(a.filter(on_bus(k)) == b.filter(on_bus(k)));
            if k == kx {
                assert(a1.filter(on_bus(k)) =~= a.filter(on_bus(k)).drop_last());
                assert(b1.filter(on_bus(k)) =~= b.filter(on_bus(k)).drop_last());
            }
        }
        assert forall|p: int, q: int| 0 <= p < q < a1.len() implies !seq_less(
            #[trigger] a1[q].bus_id,
            #[trigger] a1[p].bus_id,
        ) by {
            assert(!seq_less(a[q].bus_id, a[p].bus_id));
        }
        assert forall|p: int, q: int| 0 <= p < q < b1.len() implies !seq_less(
            #[trigger] b1[q].bus_id,
            #[trigger] b1[p].bus_id,
        ) by {
            assert(!seq_less(b[q].bus_id, b[p].bus_id));
        }
        lemma_bus_sorted_equal(a1, b1);
        assert(a =~= a1.push(x));
        assert(b =~= b1.push(y));
    }
}

} // verus!
