use vstd::prelude::*;

verus! {

/// The byte that ends a line.
pub const LF: u8 = 0x0A;

/// No byte of `s` is a line feed.
pub open spec fn lf_free(s: Seq<u8>) -> bool {
    forall|i: int| 0 <= i < s.len() ==> s[i] != LF
}

/// `i` is the position of the first line feed of `s`.
pub open spec fn is_first_lf(s: Seq<u8>, i: int) -> bool {
    &&& 0 <= i < s.len()
    &&& s[i] == LF
    &&& lf_free(s.take(i))
}

/// The position of the first line feed of `s`, if it has one.
pub open spec fn first_lf(s: Seq<u8>) -> Option<int> {
    if exists|i: int| is_first_lf(s, i) {
        Some(choose|i: int| is_first_lf(s, i))
    } else {
        None
    }
}

/// The length of the first line of `s`: up to and including its first line
/// feed, or all of `s` where it has none.
pub open spec fn line_len(s: Seq<u8>) -> nat {
    match first_lf(s) {
        Some(i) => (i + 1) as nat,
        None => s.len(),
    }
}

/// The first line of `s`.
pub open spec fn first_line(s: Seq<u8>) -> Seq<u8> {
    s.take(line_len(s) as int)
}

/// What follows the first line of `s`.
pub open spec fn rest(s: Seq<u8>) -> Seq<u8> {
    s.skip(line_len(s) as int)
}

/// `line` is shaped like a line: a line feed can only be its last byte.
pub open spec fn is_line(line: Seq<u8>) -> bool {
    line.len() > 0 ==> lf_free(line.drop_last())
}

/// `line` ends in a line feed.
pub open spec fn ends_in_lf(line: Seq<u8>) -> bool {
    line.len() > 0 && line.last() == LF
}

/// A sequence has at most one first line feed.
pub proof fn lemma_first_lf_unique(s: Seq<u8>, i: int, j: int)
    requires
        is_first_lf(s, i),
        is_first_lf(s, j),
    ensures
        i == j,
{
    if i < j {
        assert(s.take(j)[i] == s[i]);
    } else if j < i {
        assert(s.take(i)[j] == s[j]);
    }
}

/// Knowing the first line feed fixes `first_lf`, `line_len`, `first_line` and `rest`.
pub proof fn lemma_first_lf_at(s: Seq<u8>, i: int)
    requires
        is_first_lf(s, i),
    ensures
        first_lf(s) == Some(i),
        line_len(s) == i + 1,
{
    let j = choose|j: int| is_first_lf(s, j);
    lemma_first_lf_unique(s, i, j);
}

/// Without a line feed the first line is the whole sequence.
pub proof fn law_line_without_lf(s: Seq<u8>)
    requires
        lf_free(s),
    ensures
        first_lf(s) is None,
        line_len(s) == s.len(),
        first_line(s) == s,
        rest(s) == Seq::<u8>::empty(),
{
    assert forall|i: int| !is_first_lf(s, i) by {}
}

/// A sequence that holds a line feed has a first one.
pub proof fn lemma_first_lf_exists(s: Seq<u8>)
    requires
        !lf_free(s),
    ensures
        exists|i: int| is_first_lf(s, i),
    decreases s.len(),
{
    let k = choose|k: int| 0 <= k < s.len() && s[k] == LF;
    let head = s.take(k);
    if lf_free(head) {
        assert(is_first_lf(s, k));
    } else {
        lemma_first_lf_exists(head);
        let i = choose|i: int| is_first_lf(head, i);
        assert(head.take(i) =~= s.take(i));
        assert(is_first_lf(s, i));
    }
}

/// What `first_lf` returns is the first line feed, and it returns `None`
/// only where there is none.
pub proof fn lemma_first_lf(s: Seq<u8>)
    ensures
        match first_lf(s) {
            Some(i) => is_first_lf(s, i),
            None => lf_free(s),
        },
{
    if !lf_free(s) {
        lemma_first_lf_exists(s);
    }
}

/// The first line is a nonempty prefix of a nonempty sequence, and the
/// sequence is its first line followed by the rest.
pub proof fn law_line_and_rest(s: Seq<u8>)
    ensures
        line_len(s) <= s.len(),
        s.len() > 0 ==> line_len(s) >= 1,
        first_line(s).len() == line_len(s),
        rest(s).len() == s.len() - line_len(s),
        first_line(s) + rest(s) == s,
{
}

/// Bytes that follow the first line feed do not change the first line.
pub proof fn lemma_first_line_of_prefix(head: Seq<u8>, tail: Seq<u8>)
    requires
        !lf_free(head),
    ensures
        first_lf(head + tail) == first_lf(head),
        line_len(head + tail) == line_len(head),
        first_line(head + tail) == first_line(head),
        rest(head + tail) == rest(head) + tail,
{
    lemma_first_lf_exists(head);
    let i = choose|i: int| is_first_lf(head, i);
    assert((head + tail).take(i) =~= head.take(i));
    lemma_first_lf_at(head + tail, i);
}

/// The first line feed of the second part is the first of the whole where
/// the first part has none.
pub proof fn lemma_first_lf_concat(a: Seq<u8>, b: Seq<u8>, i: int)
    requires
        lf_free(a),
        is_first_lf(b, i),
    ensures
        is_first_lf(a + b, a.len() + i),
{
    assert((a + b).take(a.len() + i) =~= a + b.take(i));
}

/// The position of the first line feed of `buf`, if it has one.
pub fn find_lf(buf: &[u8]) -> (r: Option<usize>)
    ensures
        match r {
            Some(i) => first_lf(buf@) == Some(i as int),
            None => first_lf(buf@) is None,
        },
        r matches Some(i) ==> is_first_lf(buf@, i as int),
        r is None ==> lf_free(buf@),
{
    let mut i: usize = 0;
    while i < buf.len()
        invariant
            i <= buf@.len(),
            lf_free(buf@.take(i as int)),
        decreases buf@.len() - i,
    {
        if buf[i] == LF {
            proof {
                lemma_first_lf_at(buf@, i as int);
            }
            return Some(i);
        }
        i += 1;
    }
    proof {
        assert(buf@.take(i as int) =~= buf@);
    }
    None
}

} // verus!
