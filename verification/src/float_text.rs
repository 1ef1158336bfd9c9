use vstd::prelude::*;

verus! {

pub open spec fn is_ascii_digit(b: u8) -> bool {
    48 <= b && b < 58
}

/// Where the decimal number that starts at `i` ends when `s` is read the way
/// awk reads a string as a number: digits, with at most one dot among them
/// (`dot_seen` says whether one was already taken).
pub open spec fn number_text_end(s: Seq<u8>, i: int, dot_seen: bool) -> int
    decreases s.len() - i,
{
    if i < 0 || i >= s.len() {
        i
    } else if is_ascii_digit(s[i]) {
        number_text_end(s, i + 1, dot_seen)
    } else if s[i] == 46 && !dot_seen {
        number_text_end(s, i + 1, true)
    } else {
        i
    }
}

proof fn lemma_number_text_end_bounds(s: Seq<u8>, i: int, dot_seen: bool)
    requires
        0 <= i <= s.len(),
    ensures
        i <= number_text_end(s, i, dot_seen) <= s.len(),
    decreases s.len() - i,
{
    if i < s.len() {
        if is_ascii_digit(s[i]) {
            lemma_number_text_end_bounds(s, i + 1, dot_seen);
        } else if s[i] == 46 && !dot_seen {
            lemma_number_text_end_bounds(s, i + 1, true);
        }
    }
}

/// The length of the leading number text of `bytes` (`1.1a` gives 3): the
/// part a permissive conversion of a string to a number reads.
pub fn float_prefix_len(bytes: &[u8]) -> (n: usize)
    ensures
        n == number_text_end(bytes@, 0, false),
{
    let mut i: usize = 0;
    let mut dot_seen = false;
    while i < bytes.len()
        invariant_except_break
            0 <= i <= bytes@.len(),
            number_text_end(bytes@, i as int, dot_seen) == number_text_end(bytes@, 0, false),
        ensures
            i == number_text_end(bytes@, 0, false),
        decreases bytes@.len() - i,
    {
        let b = bytes[i];
        if 48 <= b && b < 58 {
            i = i + 1;
        } else if b == 46 && !dot_seen {
            dot_seen = true;
            i = i + 1;
        } else {
            break;
        }
    }
    i
}

/// Whether the whole of `bytes` is number text (`1.1` is, `1.1a` and the
/// empty string are not): what an exact conversion to a number accepts
/// before reading the value.
pub fn exactly_float_text(bytes: &[u8]) -> (r: bool)
    ensures
        r == (bytes@.len() > 0 && number_text_end(bytes@, 0, false) == bytes@.len()),
{
    if bytes.len() == 0 {
        return false;
    }
    float_prefix_len(bytes) == bytes.len()
}

/// The number text of a string is a prefix of it.
pub proof fn law_number_text_is_a_prefix(s: Seq<u8>)
    ensures
        0 <= number_text_end(s, 0, false) <= s.len(),
        forall|k: int| 0 <= k < number_text_end(s, 0, false) ==> is_ascii_digit(#[trigger] s[k]) || s[k] == 46,
{
    lemma_number_text_end_bounds(s, 0, false);
    lemma_number_text_chars(s, 0, false);
}

proof fn lemma_number_text_chars(s: Seq<u8>, i: int, dot_seen: bool)
    requires
        0 <= i <= s.len(),
    ensures
        forall|k: int| i <= k < number_text_end(s, i, dot_seen) ==> is_ascii_digit(#[trigger] s[k]) || s[k] == 46,
    decreases s.len() - i,
{
    if i < s.len() {
        if is_ascii_digit(s[i]) {
            lemma_number_text_chars(s, i + 1, dot_seen);
        } else if s[i] == 46 && !dot_seen {
            lemma_number_text_chars(s, i + 1, true);
        }
    }
}

/// Whether a dot occurs in `s` before position `k`.
pub open spec fn dot_before(s: Seq<u8>, k: int) -> bool {
    exists|m: int| 0 <= m < k && s[m] == 46
}

/// The number text of a string is as long as it can be: every byte of it is
/// a digit or the first dot of the string, and the byte after it (if any)
/// is neither a digit nor a first dot.
pub proof fn law_number_text_is_maximal(s: Seq<u8>)
    ensures
        forall|k: int| 0 <= k < number_text_end(s, 0, false) ==>
            is_ascii_digit(#[trigger] s[k]) || (s[k] == 46 && !dot_before(s, k)),
        number_text_end(s, 0, false) < s.len() ==> {
            let e = number_text_end(s, 0, false);
            !is_ascii_digit(s[e]) && !(s[e] == 46 && !dot_before(s, e))
        },
{
    lemma_number_text_maximal(s, 0, false);
}

proof fn lemma_number_text_maximal(s: Seq<u8>, i: int, dot_seen: bool)
    requires
        0 <= i <= s.len(),
        dot_seen == dot_before(s, i),
    ensures
        forall|k: int| i <= k < number_text_end(s, i, dot_seen) ==>
            is_ascii_digit(#[trigger] s[k]) || (s[k] == 46 && !dot_before(s, k)),
        number_text_end(s, i, dot_seen) < s.len() ==> {
            let e = number_text_end(s, i, dot_seen);
            !is_ascii_digit(s[e]) && !(s[e] == 46 && !dot_before(s, e))
        },
    decreases s.len() - i,
{
    if i < s.len() {
        if is_ascii_digit(s[i]) {
            assert(dot_before(s, i + 1) == dot_seen) by {
                if dot_before(s, i + 1) {
                    let m = choose|m: int| 0 <= m < i + 1 && s[m] == 46;
                    assert(m < i);
                }
                if dot_seen {
                    let m = choose|m: int| 0 <= m < i && s[m] == 46;
                    assert(0 <= m < i + 1 && s[m] == 46);
                }
            }
            lemma_number_text_maximal(s, i + 1, dot_seen);
        } else if s[i] == 46 && !dot_seen {
            assert(dot_before(s, i + 1)) by {
                assert(0 <= i < i + 1 && s[i] == 46);
            }
            lemma_number_text_maximal(s, i + 1, true);
        }
    }
}

} // verus!
