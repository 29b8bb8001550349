//! Reading the values of literals.
use vstd::prelude::*;

verus! {

pub open spec fn is_digit(c: char) -> bool {
    '0' <= c && c <= '9'
}

/// The number a sequence of decimal digits denotes.
pub open spec fn decimal_value(s: Seq<char>) -> int
    decreases s.len(),
{
    if s.len() == 0 {
        0
    } else {
        decimal_value(s.drop_last()) * 10 + (s.last() as int - '0' as int)
    }
}

/// The value of a literal: defined where it is a non-empty run of decimal
/// digits whose value fits in 64 bits.
pub open spec fn integer_value(s: Seq<char>) -> Option<u64> {
    if s.len() > 0 && (forall|i: int| 0 <= i < s.len() ==> is_digit(#[trigger] s[i])) && decimal_value(s) <= u64::MAX {
        Some(decimal_value(s) as u64)
    } else {
        None
    }
}

proof fn lemma_prefix_value_le(s: Seq<char>, k: int)
    requires
        0 <= k <= s.len(),
        forall|i: int| 0 <= i < s.len() ==> is_digit(#[trigger] s[i]),
    ensures
        0 <= decimal_value(s.subrange(0, k)) <= decimal_value(s),
    decreases s.len() - k,
{
    if k == s.len() {
        assert(s.subrange(0, k) =~= s);
        lemma_value_nonneg(s);
    } else {
        lemma_prefix_value_le(s, k + 1);
        assert(s.subrange(0, k + 1).drop_last() =~= s.subrange(0, k));
        lemma_value_nonneg(s.subrange(0, k));
    }
}

proof fn lemma_value_nonneg(s: Seq<char>)
    requires
        forall|i: int| 0 <= i < s.len() ==> is_digit(#[trigger] s[i]),
    ensures
        decimal_value(s) >= 0,
    decreases s.len(),
{
    if s.len() > 0 {
        lemma_value_nonneg(s.drop_last());
    }
}

/// Reads a decimal integer literal; `None` where the text is not a non-empty run
/// of decimal digits or its value exceeds `u64::MAX`.
pub fn parse_integer(s: &str) -> (r: Option<u64>)
    ensures
        r == integer_value(s@),
{
    let n = s.unicode_len();
    if n == 0 {
        return None;
    }
    let mut acc: u64 = 0;
    let mut i: usize = 0;
    while i < n
        invariant
            n == s@.len(),
            0 <= i <= n,
            forall|j: int| 0 <= j < i ==> is_digit(#[trigger] s@[j]),
            acc as int == decimal_value(s@.subrange(0, i as int)),
        decreases n - i,
    {
        let c = s.get_char(i);
        if !('0' <= c && c <= '9') {
            return None;
        }
        let d = (c as u32 - '0' as u32) as u64;
        assert(s@.subrange(0, i + 1).drop_last() =~= s@.subrange(0, i as int));
        let next = match acc.checked_mul(10) {
            Some(m) => m.checked_add(d),
            None => None,
        };
        match next {
            Some(v) => {
                acc = v;
            },
            None => {
                proof {
                    if forall|j: int| 0 <= j < s@.len() ==> is_digit(#[trigger] s@[j]) {
                        lemma_prefix_value_le(s@, i + 1);
                    }
                }
                return None;
            },
        }
        i = i + 1;
    }
    assert(s@.subrange(0, n as int) =~= s@);
    Some(acc)
}

/// The contents of a string literal as the grammar reads them: one character
/// dropped from the front and two from the back. For a literal that holds both
/// of its quotes this also drops the last character inside them; the rule is
/// kept as it stands until a symmetric one is confirmed. A literal of fewer
/// than three characters has empty contents.
pub open spec fn string_value(raw: Seq<char>) -> Seq<char> {
    if raw.len() >= 3 {
        raw.subrange(1, raw.len() - 2)
    } else {
        Seq::empty()
    }
}

/// The characters of `string_value(raw@)`, first to last.
pub fn string_chars(raw: &str) -> (r: Vec<char>)
    ensures
        r@ == string_value(raw@),
{
    let n = raw.unicode_len();
    let mut out: Vec<char> = Vec::new();
    if n < 3 {
        return out;
    }
    let mut i: usize = 1;
    while i < n - 2
        invariant
            n == raw@.len(),
            n >= 3,
            1 <= i <= n - 2,
            out@ == raw@.subrange(1, i as int),
        decreases n - 2 - i,
    {
        let c = raw.get_char(i);
        out.push(c);
        i = i + 1;
        assert(out@ =~= raw@.subrange(1, i as int));
    }
    out
}

/// `string_value(raw@)` as a `String`.
pub fn string_contents(raw: &str) -> (r: String)
    ensures
        r@ == string_value(raw@),
{
    let n = raw.unicode_len();
    if n < 3 {
        String::new()
    } else {
        raw.substring_char(1, n - 2).to_owned()
    }
}

} // verus!
