//! Sorting the immediate children of a category node: the children are
//! partitioned into categories and sounds, each group is ordered by the
//! comparator of the chosen mode, and the groups are re-merged with
//! categories listed before sounds.

use vstd::prelude::*;
use vstd::multiset::Multiset;
use vstd::seq_lib::group_to_multiset_ensures;
use crate::library::{
    LibraryEntry, EntryModel, children_model, entry_model, lemma_children_model_len,
    lemma_children_model_push, lemma_children_model_remove,
};

verus! {

/// The sort mode selecting a comparator for the children of a category.
/// `IdInc` orders identifiers descending and `IdDec` ascending: the source
/// catalog's native ordering convention for identifiers is reversed relative
/// to every other field, and that convention is kept.
#[derive(Debug, Clone, Copy, PartialEq, Eq, Structural)]
pub enum Sorting {
    Default,
    NameInc,
    NameDec,
    LengthInc,
    LengthDec,
    IdInc,
    IdDec,
    SizeInc,
    SizeDec,
}

impl Default for Sorting {
    /// The default mode keeps the original child order.
    fn default() -> (r: Self)
        ensures
            r == Sorting::Default,
    {
        Sorting::Default
    }
}

/// Lexicographic order on character sequences, by scalar code: the empty
/// sequence comes first, otherwise the first differing position decides.
pub open spec fn lex_le(a: Seq<char>, b: Seq<char>) -> bool
    decreases a.len(),
{
    if a.len() == 0 {
        true
    } else if b.len() == 0 {
        false
    } else if (a[0] as u32) < (b[0] as u32) {
        true
    } else if (a[0] as u32) > (b[0] as u32) {
        false
    } else {
        lex_le(a.drop_first(), b.drop_first())
    }
}

pub proof fn lemma_lex_total(a: Seq<char>, b: Seq<char>)
    ensures
        lex_le(a, b) || lex_le(b, a),
    decreases a.len(),
{
    if a.len() > 0 && b.len() > 0 && a[0] as u32 == b[0] as u32 {
        lemma_lex_total(a.drop_first(), b.drop_first());
    }
}

pub proof fn lemma_lex_trans(a: Seq<char>, b: Seq<char>, c: Seq<char>)
    requires
        lex_le(a, b),
        lex_le(b, c),
    ensures
        lex_le(a, c),
    decreases a.len(),
{
    if a.len() > 0 && b.len() > 0 && c.len() > 0 {
        if a[0] as u32 == b[0] as u32 && b[0] as u32 == c[0] as u32 {
            lemma_lex_trans(a.drop_first(), b.drop_first(), c.drop_first());
        }
    }
}

/// The comparator of each mode, as "comes no later than". The table:
/// `Default` treats all entries as equal (no reordering), names and sizes and
/// durations order ascending in the `Inc` modes and descending in the `Dec`
/// modes, while identifiers order descending under `IdInc` and ascending
/// under `IdDec` (the catalog's reversed identifier convention).
pub open spec fn cmp_le(mode: Sorting, a: EntryModel, b: EntryModel) -> bool {
    match mode {
        Sorting::Default => true,
        Sorting::NameInc => lex_le(a.name(), b.name()),
        Sorting::NameDec => lex_le(b.name(), a.name()),
        Sorting::LengthInc => a.duration() <= b.duration(),
        Sorting::LengthDec => b.duration() <= a.duration(),
        Sorting::IdInc => b.id() <= a.id(),
        Sorting::IdDec => a.id() <= b.id(),
        Sorting::SizeInc => a.bytes() <= b.bytes(),
        Sorting::SizeDec => b.bytes() <= a.bytes(),
    }
}

/// Every mode's comparator is total: any two entries compare one way or the
/// other.
pub proof fn lemma_comparator_total(mode: Sorting, a: EntryModel, b: EntryModel)
    ensures
        cmp_le(mode, a, b) || cmp_le(mode, b, a),
{
    lemma_lex_total(a.name(), b.name());
}

/// Every mode's comparator is transitive.
pub proof fn lemma_comparator_transitive(mode: Sorting, a: EntryModel, b: EntryModel, c: EntryModel)
    requires
        cmp_le(mode, a, b),
        cmp_le(mode, b, c),
    ensures
        cmp_le(mode, a, c),
{
    match mode {
        Sorting::NameInc => lemma_lex_trans(a.name(), b.name(), c.name()),
        Sorting::NameDec => lemma_lex_trans(c.name(), b.name(), a.name()),
        _ => {},
    }
}

pub proof fn lemma_lex_antisymmetric(a: Seq<char>, b: Seq<char>)
    requires
        lex_le(a, b),
        lex_le(b, a),
    ensures
        a == b,
    decreases a.len(),
{
    if a.len() == 0 {
        assert(b.len() == 0);
        assert(a =~= b);
    } else {
        assert(b.len() > 0);
        assert(a[0] as u32 == b[0] as u32);
        assert(a[0] == b[0]) by {
            vstd::utf8::char_u32_cast(a[0], a[0] as u32);
            vstd::utf8::char_u32_cast(b[0], b[0] as u32);
        }
        lemma_lex_antisymmetric(a.drop_first(), b.drop_first());
        assert(a =~= seq![a[0]] + a.drop_first());
        assert(b =~= seq![b[0]] + b.drop_first());
    }
}

/// Two entries that compare both ways under a mode other than the default
/// agree on that mode's key: the comparators are antisymmetric up to the
/// compared field, so together with totality and transitivity each is a
/// total order on its key.
pub proof fn lemma_comparator_antisymmetric(mode: Sorting, a: EntryModel, b: EntryModel)
    requires
        mode != Sorting::Default,
        cmp_le(mode, a, b),
        cmp_le(mode, b, a),
    ensures
        mode == Sorting::NameInc || mode == Sorting::NameDec ==> a.name() == b.name(),
        mode == Sorting::LengthInc || mode == Sorting::LengthDec ==> a.duration() == b.duration(),
        mode == Sorting::IdInc || mode == Sorting::IdDec ==> a.id() == b.id(),
        mode == Sorting::SizeInc || mode == Sorting::SizeDec ==> a.bytes() == b.bytes(),
{
    match mode {
        Sorting::NameInc | Sorting::NameDec => lemma_lex_antisymmetric(a.name(), b.name()),
        _ => {},
    }
}

/// A sequence ordered by the comparator of `mode`.
pub open spec fn sorted_by_mode(s: Seq<EntryModel>, mode: Sorting) -> bool {
    forall|i: int, j: int| 0 <= i < j < s.len() ==> cmp_le(mode, s[i], s[j])
}

/// Lexicographic order of two strings by scalar code.
pub fn str_le(a: &str, b: &str) -> (r: bool)
    ensures
        r == lex_le(a@, b@),
{
    let an = a.unicode_len();
    let bn = b.unicode_len();
    let mut i: usize = 0;
    proof {
        assert(a@.skip(0) =~= a@);
        assert(b@.skip(0) =~= b@);
    }
    while i < an
        invariant
            an == a@.len(),
            bn == b@.len(),
            i <= an,
            i <= bn,
            lex_le(a@, b@) == lex_le(a@.skip(i as int), b@.skip(i as int)),
        decreases an - i,
    {
        if i >= bn {
            assert(b@.skip(i as int).len() == 0);
            assert(!lex_le(a@.skip(i as int), b@.skip(i as int)));
            return false;
        }
        let ca = a.get_char(i) as u32;
        let cb = b.get_char(i) as u32;
        assert(a@.skip(i as int)[0] == a@[i as int]);
        assert(b@.skip(i as int)[0] == b@[i as int]);
        if ca < cb {
            return true;
        }
        if ca > cb {
            return false;
        }
        assert(a@.skip(i as int).drop_first() =~= a@.skip(i + 1));
        assert(b@.skip(i as int).drop_first() =~= b@.skip(i + 1));
        i = i + 1;
    }
    assert(a@.skip(i as int).len() == 0);
    true
}

/// Whether `a` comes no later than `b` under the comparator of `mode`.
pub fn entry_le(mode: Sorting, a: &LibraryEntry, b: &LibraryEntry) -> (r: bool)
    ensures
        r == cmp_le(mode, a@, b@),
{
    match mode {
        Sorting::Default => true,
        Sorting::NameInc => str_le(a.name(), b.name()),
        Sorting::NameDec => str_le(b.name(), a.name()),
        Sorting::LengthInc => a.duration() <= b.duration(),
        Sorting::LengthDec => b.duration() <= a.duration(),
        Sorting::IdInc => b.id() <= a.id(),
        Sorting::IdDec => a.id() <= b.id(),
        Sorting::SizeInc => a.bytes() <= b.bytes(),
        Sorting::SizeDec => b.bytes() <= a.bytes(),
    }
}

/// Sorts a group of entries by the comparator of `mode`: the result holds the
/// same entries, ordered; the default mode returns the group unchanged.
pub fn sort_entries(v: Vec<LibraryEntry>, mode: Sorting) -> (r: Vec<LibraryEntry>)
    ensures
        children_model(r@).to_multiset() == children_model(v@).to_multiset(),
        sorted_by_mode(children_model(r@), mode),
        mode == Sorting::Default ==> r@ == v@,
{
    broadcast use group_to_multiset_ensures;

    if matches!(mode, Sorting::Default) {
        return v;
    }
    let ghost total = children_model(v@).to_multiset();
    let mut rest = v;
    let mut out: Vec<LibraryEntry> = Vec::new();
    proof {
        assert(children_model(out@).to_multiset() =~= Multiset::<EntryModel>::empty());
        assert(Multiset::<EntryModel>::empty().add(children_model(rest@).to_multiset())
            =~= children_model(rest@).to_multiset());
    }
    while rest.len() > 0
        invariant
            children_model(out@).to_multiset().add(children_model(rest@).to_multiset())
                == total,
            sorted_by_mode(children_model(out@), mode),
            forall|k: int, j: int|
                0 <= k < children_model(out@).len() && 0 <= j < children_model(rest@).len()
                    ==> cmp_le(mode, children_model(out@)[k], children_model(rest@)[j]),
        decreases rest@.len(),
    {
        broadcast use group_to_multiset_ensures;

        proof {
            lemma_children_model_len(rest@);
            lemma_comparator_total(mode, children_model(rest@)[0], children_model(rest@)[0]);
        }
        let mut min: usize = 0;
        let mut t: usize = 1;
        while t < rest.len()
            invariant
                rest@.len() > 0,
                min < t,
                t <= rest@.len(),
                forall|j: int|
                    0 <= j < t ==> cmp_le(
                        mode,
                        children_model(rest@)[min as int],
                        children_model(rest@)[j],
                    ),
            decreases rest@.len() - t,
        {
            proof {
                lemma_children_model_len(rest@);
            }
            if entry_le(mode, &rest[t], &rest[min]) {
                proof {
                    let cm = children_model(rest@);
                    lemma_comparator_total(mode, cm[t as int], cm[t as int]);
                    assert forall|j: int| 0 <= j < t implies cmp_le(mode, cm[t as int], cm[j]) by {
                        lemma_comparator_transitive(mode, cm[t as int], cm[min as int], cm[j]);
                    }
                }
                min = t;
            } else {
                proof {
                    lemma_comparator_total(
                        mode,
                        children_model(rest@)[min as int],
                        children_model(rest@)[t as int],
                    );
                }
            }
            t = t + 1;
        }
        let ghost pre_rest = rest@;
        let ghost pre_out = out@;
        let ghost cm_rest = children_model(rest@);
        let ghost cm_out = children_model(out@);
        let x = rest.remove(min);
        out.push(x);
        proof {
            let e = entry_model(x);
            lemma_children_model_len(pre_rest);
            lemma_children_model_push(pre_out, x);
            lemma_children_model_remove(pre_rest, min as int);
            pre_rest.remove_ensures(min as int);
            cm_rest.remove_ensures(min as int);
            assert(cm_rest[min as int] == e);
            assert(children_model(out@) == cm_out.push(e));
            assert(children_model(rest@) == cm_rest.remove(min as int));
            // the multiset balance: one element moved from the rest to the out
            assert(children_model(out@).to_multiset() =~= cm_out.to_multiset().insert(e));
            assert(children_model(rest@).to_multiset() =~= cm_rest.to_multiset().remove(e));
            assert(cm_rest.contains(cm_rest[min as int]));
            assert(cm_rest.to_multiset().count(e) > 0);
            assert(cm_out.to_multiset().insert(e).add(cm_rest.to_multiset().remove(e)) =~= cm_out.to_multiset().add(cm_rest.to_multiset()));
            // the out stays sorted: the moved element is a minimum of the rest
            let cm_out2 = children_model(out@);
            let cm_rest2 = children_model(rest@);
            assert(cm_out2 == cm_out.push(e));
            assert forall|k: int, j: int|
                0 <= k < j < cm_out2.len() implies cmp_le(mode, cm_out2[k], cm_out2[j]) by {
                if j < cm_out.len() {
                    assert(cm_out2[k] == cm_out[k]);
                    assert(cm_out2[j] == cm_out[j]);
                } else {
                    assert(cm_out2[j] == e);
                    assert(cm_out2[k] == cm_out[k]);
                    assert(cmp_le(mode, cm_out[k], cm_rest[min as int]));
                }
            }
            // every element of the out comes no later than every remaining one
            assert forall|k: int, j: int|
                0 <= k < cm_out2.len() && 0 <= j < cm_rest2.len() implies cmp_le(
                mode,
                cm_out2[k],
                cm_rest2[j],
            ) by {
                let r = if j < min as int {
                    cm_rest[j]
                } else {
                    cm_rest[j + 1]
                };
                assert(cm_rest2[j] == r);
                if k < cm_out.len() {
                    assert(cmp_le(mode, cm_out[k], r));
                } else {
                    assert(cm_out2[k] == e);
                    assert(cmp_le(mode, cm_rest[min as int], r));
                }
            }
        }
    }
    proof {
        lemma_children_model_len(rest@);
        assert(children_model(rest@).to_multiset() =~= Multiset::<EntryModel>::empty());
        assert(children_model(out@).to_multiset() =~= children_model(out@).to_multiset().add(
            Multiset::<EntryModel>::empty(),
        ));
    }
    out
}

/// The category entries of a group, in their original order.
pub open spec fn cats_of(s: Seq<EntryModel>) -> Seq<EntryModel> {
    s.filter(|m: EntryModel| m.is_category())
}

/// The sound entries of a group, in their original order.
pub open spec fn snds_of(s: Seq<EntryModel>) -> Seq<EntryModel> {
    s.filter(|m: EntryModel| !m.is_category())
}

/// Sorts a group of sibling entries: categories are listed before sounds,
/// and each of the two groups is ordered by the comparator of `mode`; under
/// the default mode each group keeps its original order unchanged.
pub fn sort_children(children: Vec<LibraryEntry>, mode: Sorting) -> (r: Vec<LibraryEntry>)
    ensures
        ({
            let s = children_model(children@);
            let cm = children_model(r@);
            let k = cats_of(s).len() as int;
            &&& cm.take(k).to_multiset() == cats_of(s).to_multiset()
            &&& cm.skip(k).to_multiset() == snds_of(s).to_multiset()
            &&& sorted_by_mode(cm.take(k), mode)
            &&& sorted_by_mode(cm.skip(k), mode)
            &&& mode == Sorting::Default ==> cm == cats_of(s) + snds_of(s)
        }),
{
    broadcast use group_to_multiset_ensures;

    let ghost s = children_model(children@);
    proof {
        lemma_children_model_len(children@);
        assert(children.len() == children@.len());
        reveal_with_fuel(Seq::filter, 2);
        assert(s.take(0) =~= Seq::<EntryModel>::empty());
    }
    let mut rest = children;
    let mut cats: Vec<LibraryEntry> = Vec::new();
    let mut snds: Vec<LibraryEntry> = Vec::new();
    let mut i: usize = 0;
    while rest.len() > 0
        invariant
            s.len() <= usize::MAX,
            i + rest@.len() == s.len(),
            children_model(rest@) == s.skip(i as int),
            children_model(cats@) == cats_of(s.take(i as int)),
            children_model(snds@) == snds_of(s.take(i as int)),
        decreases rest@.len(),
    {
        let ghost pre_rest = rest@;
        let x = rest.remove(0);
        proof {
            lemma_children_model_len(pre_rest);
            lemma_children_model_remove(pre_rest, 0);
            pre_rest.remove_ensures(0);
            assert(children_model(rest@) =~= s.skip(i + 1));
            assert(children_model(pre_rest)[0] == entry_model(pre_rest[0]));
            assert(s.skip(i as int)[0] == s[i as int]);
            assert(entry_model(x) == s[i as int]);
            reveal_with_fuel(Seq::filter, 2);
            assert(s.take(i + 1).drop_last() =~= s.take(i as int));
            assert(s.take(i + 1).last() == s[i as int]);
        }
        let ghost pre_cats = cats@;
        let ghost pre_snds = snds@;
        if x.is_category() {
            cats.push(x);
            proof {
                lemma_children_model_push(pre_cats, x);
            }
        } else {
            snds.push(x);
            proof {
                lemma_children_model_push(pre_snds, x);
            }
        }
        i = i + 1;
    }
    proof {
        assert(s.take(s.len() as int) =~= s);
    }
    let cats_sorted = sort_entries(cats, mode);
    let mut snds_sorted = sort_entries(snds, mode);
    let mut r = cats_sorted;
    let ghost va = r@;
    let ghost vb = snds_sorted@;
    let ghost cm_cats = children_model(va);
    let ghost cm_snds = children_model(vb);
    r.append(&mut snds_sorted);
    proof {
        crate::library::lemma_children_model_concat(va, vb);
        lemma_children_model_len(va);
        lemma_children_model_len(vb);
        let cm = children_model(r@);
        let k = cats_of(s).len() as int;
        assert(cm == cm_cats + cm_snds);
        assert(cm_cats.len() == cats_of(s).len() && cm_snds.len() == snds_of(s).len()) by {
            assert(cm_cats.to_multiset().len() == cats_of(s).to_multiset().len());
            assert(cm_snds.to_multiset().len() == snds_of(s).to_multiset().len());
        }
        assert(cm.take(k) =~= cm_cats);
        assert(cm.skip(k) =~= cm_snds);
    }
    r
}

} // verus!
