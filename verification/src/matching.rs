//! Case-insensitive substring matching on entry names, stated over the
//! ASCII-folded scalar codes of the characters.

use vstd::prelude::*;
use vstd::string::StrSliceExecFns;

verus! {

/// The scalar code of a character after ASCII case folding: an ASCII capital
/// letter folds to its small letter, every other character stays itself.
pub open spec fn lower_code(c: char) -> u32 {
    if 65 <= c as u32 && c as u32 <= 90 {
        (c as u32 + 32) as u32
    } else {
        c as u32
    }
}

/// The folded codes of a whole character sequence.
pub open spec fn lower_codes(s: Seq<char>) -> Seq<u32> {
    s.map_values(|c: char| lower_code(c))
}

/// Whether `needle` occurs in `hay` starting at position `i`.
pub open spec fn occurs_at(hay: Seq<u32>, needle: Seq<u32>, i: int) -> bool {
    &&& 0 <= i
    &&& i + needle.len() <= hay.len()
    &&& hay.subrange(i, i + needle.len() as int) == needle
}

/// Whether `needle` occurs somewhere in `hay`.
pub open spec fn contains_codes(hay: Seq<u32>, needle: Seq<u32>) -> bool {
    exists|i: int| occurs_at(hay, needle, i)
}

/// Whether the name `name` matches the query `query`: the query's folded
/// codes occur as a contiguous run inside the name's folded codes.
pub open spec fn name_matches(name: Seq<char>, query: Seq<char>) -> bool {
    contains_codes(lower_codes(name), lower_codes(query))
}

/// An empty query matches every name.
pub proof fn lemma_empty_query_matches(name: Seq<char>)
    ensures
        name_matches(name, Seq::empty()),
{
    let hay = lower_codes(name);
    let needle = lower_codes(Seq::empty());
    assert(needle.len() == 0);
    assert(hay.subrange(0, 0) =~= needle);
    assert(occurs_at(hay, needle, 0));
}

/// The folded codes of a string's characters, as a vector.
fn folded_codes(s: &str) -> (v: Vec<u32>)
    ensures
        v@ == lower_codes(s@),
{
    let n = s.unicode_len();
    let mut v: Vec<u32> = Vec::new();
    let mut i: usize = 0;
    while i < n
        invariant
            n == s@.len(),
            i <= n,
            v@.len() == i,
            forall|k: int| 0 <= k < i ==> v@[k] == lower_code(s@[k]),
        decreases n - i,
    {
        let c = s.get_char(i);
        let code = c as u32;
        let folded = if 65 <= code && code <= 90 {
            code + 32
        } else {
            code
        };
        v.push(folded);
        i = i + 1;
    }
    assert(v@ =~= lower_codes(s@));
    v
}

/// Whether `needle` occurs in `hay` starting at `i`, by direct comparison.
fn occurs_here(hay: &Vec<u32>, needle: &Vec<u32>, i: usize) -> (r: bool)
    requires
        i + needle@.len() <= hay@.len(),
    ensures
        r == occurs_at(hay@, needle@, i as int),
{
    let n = hay.len();
    let m = needle.len();
    let mut j: usize = 0;
    while j < m
        invariant
            n == hay@.len(),
            m == needle@.len(),
            i + m <= hay@.len(),
            j <= m,
            forall|k: int| 0 <= k < j ==> hay@[i + k] == needle@[k],
        decreases m - j,
    {
        if hay[i + j] != needle[j] {
            assert(hay@.subrange(i as int, i + m) != needle@) by {
                assert(hay@.subrange(i as int, i + m)[j as int] != needle@[j as int]);
            }
            return false;
        }
        j = j + 1;
    }
    assert(hay@.subrange(i as int, i + m) =~= needle@);
    true
}

/// Whether the query matches the name, case-insensitively: the folded query
/// occurs as a contiguous run inside the folded name.
pub fn str_matches(name: &str, query: &str) -> (r: bool)
    ensures
        r == name_matches(name@, query@),
{
    let hay = folded_codes(name);
    let needle = folded_codes(query);
    if needle.len() > hay.len() {
        assert(!contains_codes(hay@, needle@)) by {
            assert(forall|i: int| !occurs_at(hay@, needle@, i));
        }
        return false;
    }
    if needle.len() == 0 {
        assert(hay@.subrange(0, 0) =~= needle@);
        assert(occurs_at(hay@, needle@, 0));
        return true;
    }
    let last = hay.len() - needle.len();
    let mut i: usize = 0;
    while i <= last
        invariant
            hay@ == lower_codes(name@),
            needle@ == lower_codes(query@),
            1 <= needle@.len() <= hay@.len(),
            last == hay@.len() - needle@.len(),
            last < usize::MAX,
            i <= last + 1,
            forall|k: int| 0 <= k < i ==> !occurs_at(hay@, needle@, k),
        decreases hay@.len() - i,
    {
        if occurs_here(&hay, &needle, i) {
            assert(occurs_at(hay@, needle@, i as int));
            assert(contains_codes(hay@, needle@));
            return true;
        }
        i = i + 1;
    }
    assert(forall|k: int| !occurs_at(hay@, needle@, k));
    false
}

} // verus!
