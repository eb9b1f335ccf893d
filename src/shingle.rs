//! Sliding-window tokenization of a character sequence into shingles.
use vstd::prelude::*;
use vstd::slice::slice_subrange;

verus! {

/// The shingles of `s` with window `w`: every contiguous run of `w` characters,
/// left to right; a sequence no longer than the window is its own single shingle.
pub open spec fn shingles(s: Seq<char>, w: nat) -> Seq<Seq<char>> {
    if s.len() <= w {
        seq![s]
    } else {
        Seq::new((s.len() - w + 1) as nat, |i: int| s.subrange(i, i + w))
    }
}

/// Rebuilds a text from overlapping shingles: the first shingle, then the
/// last character of each one after it.
pub open spec fn overlap_join(sh: Seq<Seq<char>>) -> Seq<char>
    decreases sh.len(),
{
    if sh.len() == 0 {
        Seq::empty()
    } else if sh.len() == 1 {
        sh[0]
    } else {
        overlap_join(sh.drop_last()).push(sh.last().last())
    }
}

/// The first `k` windows of width `w` over `s` rebuild its first `k + w - 1`
/// characters.
proof fn lemma_join_windows(s: Seq<char>, w: nat, k: nat)
    requires
        1 <= k,
        1 <= w,
        k + w - 1 <= s.len(),
    ensures
        overlap_join(Seq::new(k, |i: int| s.subrange(i, i + w))) == s.subrange(0, k + w - 1),
    decreases k,
{
    let sh = Seq::new(k, |i: int| s.subrange(i, i + w));
    if k > 1 {
        lemma_join_windows(s, w, (k - 1) as nat);
        assert(sh.drop_last() =~= Seq::new((k - 1) as nat, |i: int| s.subrange(i, i + w)));
        assert(sh.last().last() == s[k + w - 2]);
        assert(s.subrange(0, k + w - 2).push(s[k + w - 2]) =~= s.subrange(0, k + w - 1));
    }
}

/// For `2 <= w <= |s|` there are `|s| - w + 1` shingles, each of `w`
/// characters, and joining them on their overlaps gives back `s`.
pub proof fn lemma_shingles_cover(s: Seq<char>, w: nat)
    requires
        2 <= w <= s.len(),
    ensures
        shingles(s, w).len() == s.len() - w + 1,
        forall|i: int| 0 <= i < shingles(s, w).len() ==> (#[trigger] shingles(s, w)[i]).len() == w,
        overlap_join(shingles(s, w)) == s,
{
    let k = (s.len() - w + 1) as nat;
    if s.len() == w {
        assert(overlap_join(shingles(s, w)) == s);
    } else {
        lemma_join_windows(s, w, k);
        assert(s.subrange(0, k + w - 1) =~= s);
    }
}

/// Relies on std's `FromIterator<char>` for `String`: the string holds the
/// characters in order.
#[verifier::external_body]
fn string_from_chars(cs: &[char]) -> (r: String)
    ensures
        r@ == cs@,
{
    cs.iter().collect()
}

/// The characters of `s`, in order.
fn chars_of(s: &str) -> (r: Vec<char>)
    ensures
        r@ == s@,
{
    let mut chars: Vec<char> = Vec::new();
    for c in it: s.chars()
        invariant
            it.seq() == s@,
            chars@ == s@.take(it.index() as int),
    {
        chars.push(c);
    }
    assert(chars@ =~= s@);
    chars
}

/// Splits `seq` into its overlapping windows of `width` characters, in order.
/// Works on characters, not bytes. A `width` below 2 is a contract violation.
pub fn sliding_window(seq: &str, width: usize) -> (r: Vec<String>)
    requires
        width >= 2,
    ensures
        r@.map_values(|x: String| x@) == shingles(seq@, width as nat),
{
    let characters = chars_of(seq);
    let characters_len = characters.len();
    if characters_len <= width {
        let v: Vec<String> = vec![seq.to_owned()];
        assert(v@.map_values(|x: String| x@) =~= shingles(seq@, width as nat));
        return v;
    }
    let max_idx = characters_len - width;
    let mut result: Vec<String> = Vec::new();
    let mut i: usize = 0;
    while i <= max_idx
        invariant
            width >= 2,
            max_idx == characters_len - width,
            characters@ == seq@,
            characters_len == seq@.len(),
            characters_len > width,
            i <= max_idx + 1,
            result@.len() == i,
            forall|k: int| 0 <= k < i ==> #[trigger] result@[k]@ == seq@.subrange(k, k + width),
        decreases max_idx + 1 - i,
    {
        let window: &[char] = slice_subrange(characters.as_slice(), i, i + width);
        result.push(string_from_chars(window));
        i = i + 1;
    }
    assert(result@.map_values(|x: String| x@) =~= shingles(seq@, width as nat));
    result
}

} // verus!
