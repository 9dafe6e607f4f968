//! Byte-string helpers shared by the wire formats: copying, comparing,
//! splitting on a separator, and decimal numbers.

use vstd::prelude::*;
use vstd::string::StringSliceAdditionalSpecFns;

verus! {

/// The views of a sequence of byte vectors.
pub open spec fn views(parts: Seq<Vec<u8>>) -> Seq<Seq<u8>> {
    Seq::new(parts.len(), |i: int| parts[i]@)
}

/// Index of the first `sep` in `s` at or after `from`, or `s.len()` when there is none.
pub open spec fn find(s: Seq<u8>, sep: u8, from: int) -> int
    decreases s.len() - from,
{
    if from < 0 || from >= s.len() {
        s.len() as int
    } else if s[from] == sep {
        from
    } else {
        find(s, sep, from + 1)
    }
}

/// `find` is the least index that holds the separator.
pub proof fn lemma_find(s: Seq<u8>, sep: u8, from: int, at: int)
    requires
        0 <= from <= at <= s.len(),
        forall|k: int| from <= k < at ==> s[k] != sep,
        at == s.len() || s[at] == sep,
    ensures
        find(s, sep, from) == at,
    decreases at - from,
{
    if from < at {
        lemma_find(s, sep, from + 1, at);
    }
}

/// What `find` returns lies between `from` and the end, and nothing before it is the separator.
pub proof fn lemma_find_bounds(s: Seq<u8>, sep: u8, from: int)
    requires
        0 <= from <= s.len(),
    ensures
        from <= find(s, sep, from) <= s.len(),
        forall|k: int| from <= k < find(s, sep, from) ==> s[k] != sep,
        find(s, sep, from) < s.len() ==> s[find(s, sep, from)] == sep,
    decreases s.len() - from,
{
    if from < s.len() && s[from] != sep {
        lemma_find_bounds(s, sep, from + 1);
    }
}

/// The fields of `s` between occurrences of `sep`. There is always at least one field;
/// two separators in a row enclose an empty field.
pub open spec fn split_spec(s: Seq<u8>, sep: u8) -> Seq<Seq<u8>>
    decreases s.len(),
{
    let i = find(s, sep, 0);
    if i < 0 || i >= s.len() {
        seq![s]
    } else {
        seq![s.subrange(0, i)] + split_spec(s.subrange(i + 1, s.len() as int), sep)
    }
}

/// The fields written one after another with `sep` between them.
pub open spec fn join_spec(parts: Seq<Seq<u8>>, sep: u8) -> Seq<u8>
    decreases parts.len(),
{
    if parts.len() == 0 {
        Seq::empty()
    } else if parts.len() == 1 {
        parts[0]
    } else {
        parts[0] + seq![sep] + join_spec(parts.drop_first(), sep)
    }
}

/// Whether `sep` occurs nowhere in `s`.
pub open spec fn free_of(s: Seq<u8>, sep: u8) -> bool {
    forall|k: int| 0 <= k < s.len() ==> s[k] != sep
}

/// Splitting never yields an empty list, and no field holds the separator.
pub proof fn lemma_split_fields(s: Seq<u8>, sep: u8)
    ensures
        split_spec(s, sep).len() >= 1,
        forall|j: int| 0 <= j < split_spec(s, sep).len() ==> free_of(#[trigger] split_spec(s, sep)[j], sep),
    decreases s.len(),
{
    let i = find(s, sep, 0);
    lemma_find_bounds(s, sep, 0);
    if i < s.len() {
        let rest = s.subrange(i + 1, s.len() as int);
        lemma_split_fields(rest, sep);
        let head = seq![s.subrange(0, i)];
        assert forall|j: int| 0 <= j < split_spec(s, sep).len() implies free_of(
            #[trigger] split_spec(s, sep)[j],
            sep,
        ) by {
            if j == 0 {
                assert(split_spec(s, sep)[0] == s.subrange(0, i));
            } else {
                assert(split_spec(s, sep)[j] == split_spec(rest, sep)[j - 1]);
            }
        }
    }
}

/// Joining the fields of a string with the separator that split it gives the string back.
pub proof fn lemma_join_split(s: Seq<u8>, sep: u8)
    ensures
        join_spec(split_spec(s, sep), sep) == s,
    decreases s.len(),
{
    let i = find(s, sep, 0);
    lemma_find_bounds(s, sep, 0);
    if i < s.len() {
        let rest = s.subrange(i + 1, s.len() as int);
        lemma_join_split(rest, sep);
        lemma_split_fields(rest, sep);
        let parts = split_spec(s, sep);
        assert(parts.drop_first() =~= split_spec(rest, sep));
        assert(parts[0] == s.subrange(0, i));
        assert(s =~= s.subrange(0, i) + seq![sep] + rest);
    }
}

/// Splitting a joined list gives the list back, provided that the list is not empty and
/// no field holds the separator.
pub proof fn lemma_split_join(parts: Seq<Seq<u8>>, sep: u8)
    requires
        parts.len() >= 1,
        forall|j: int| 0 <= j < parts.len() ==> free_of(#[trigger] parts[j], sep),
    ensures
        split_spec(join_spec(parts, sep), sep) == parts,
    decreases parts.len(),
{
    let joined = join_spec(parts, sep);
    if parts.len() == 1 {
        assert(free_of(parts[0], sep));
        lemma_find(joined, sep, 0, joined.len() as int);
        assert(split_spec(joined, sep) =~= parts);
    } else {
        let tail = parts.drop_first();
        assert forall|j: int| 0 <= j < tail.len() implies free_of(#[trigger] tail[j], sep) by {
            assert(tail[j] == parts[j + 1]);
        }
        lemma_split_join(tail, sep);
        let at = parts[0].len() as int;
        assert(free_of(parts[0], sep));
        assert(joined[at] == sep);
        lemma_find(joined, sep, 0, at);
        assert(joined.subrange(0, at) =~= parts[0]);
        assert(joined.subrange(at + 1, joined.len() as int) =~= join_spec(tail, sep));
        assert(split_spec(joined, sep) =~= parts);
    }
}

/// A fresh vector with the bytes of `s`.
pub fn copy_bytes(s: &[u8]) -> (out: Vec<u8>)
    ensures
        out@ == s@,
{
    let mut out: Vec<u8> = Vec::new();
    let mut i: usize = 0;
    while i < s.len()
        invariant
            i <= s.len(),
            out@ == s@.subrange(0, i as int),
        decreases s.len() - i,
    {
        out.push(s[i]);
        i += 1;
        assert(out@ =~= s@.subrange(0, i as int));
    }
    assert(s@.subrange(0, s.len() as int) =~= s@);
    out
}

/// A fresh vector with the bytes of `s` from `from` up to, not including, `to`.
pub fn copy_range(s: &[u8], from: usize, to: usize) -> (out: Vec<u8>)
    requires
        from <= to <= s.len(),
    ensures
        out@ == s@.subrange(from as int, to as int),
{
    let mut out: Vec<u8> = Vec::new();
    let mut i: usize = from;
    while i < to
        invariant
            from <= i <= to <= s.len(),
            out@ == s@.subrange(from as int, i as int),
        decreases to - i,
    {
        out.push(s[i]);
        i += 1;
        assert(out@ =~= s@.subrange(from as int, i as int));
    }
    out
}

/// Appends the bytes of `s` to `out`.
pub fn append(out: &mut Vec<u8>, s: &[u8])
    ensures
        final(out)@ == old(out)@ + s@,
{
    let mut i: usize = 0;
    while i < s.len()
        invariant
            i <= s.len(),
            out@ == old(out)@ + s@.subrange(0, i as int),
        decreases s.len() - i,
    {
        out.push(s[i]);
        i += 1;
        assert(out@ =~= old(out)@ + s@.subrange(0, i as int));
    }
    assert(s@.subrange(0, s.len() as int) =~= s@);
}

/// Appends the bytes of the text `s` to `out`.
pub fn append_str(out: &mut Vec<u8>, s: &str)
    ensures
        final(out)@ == old(out)@ + s.spec_bytes(),
{
    append(out, s.as_bytes());
}

/// Whether two byte strings hold the same bytes.
pub fn bytes_eq(a: &[u8], b: &[u8]) -> (same: bool)
    ensures
        same == (a@ == b@),
{
    if a.len() != b.len() {
        return false;
    }
    let mut i: usize = 0;
    while i < a.len()
        invariant
            i <= a.len(),
            a.len() == b.len(),
            forall|k: int| 0 <= k < i ==> a@[k] == b@[k],
        decreases a.len() - i,
    {
        if a[i] != b[i] {
            return false;
        }
        i += 1;
    }
    assert(a@ =~= b@);
    true
}

/// Whether `s` begins with `prefix`.
pub open spec fn starts_with_spec(s: Seq<u8>, prefix: Seq<u8>) -> bool {
    prefix.len() <= s.len() && s.subrange(0, prefix.len() as int) == prefix
}

/// Whether `s` holds `pattern` at index `at`.
pub open spec fn occurs_at(s: Seq<u8>, pattern: Seq<u8>, at: int) -> bool {
    0 <= at && at + pattern.len() <= s.len() && s.subrange(at, at + pattern.len()) == pattern
}

/// Whether `s` holds `pattern` at index `at`.
pub fn matches_at(s: &[u8], pattern: &[u8], at: usize) -> (hit: bool)
    ensures
        hit == occurs_at(s@, pattern@, at as int),
{
    if at > s.len() || pattern.len() > s.len() - at {
        return false;
    }
    let mut i: usize = 0;
    while i < pattern.len()
        invariant
            i <= pattern.len(),
            at + pattern.len() <= s.len(),
            forall|k: int| 0 <= k < i ==> s@[at + k] == pattern@[k],
        decreases pattern.len() - i,
    {
        if s[at + i] != pattern[i] {
            assert(s@.subrange(at as int, at + pattern.len())[i as int] != pattern@[i as int]);
            return false;
        }
        i += 1;
    }
    assert(s@.subrange(at as int, at + pattern.len()) =~= pattern@);
    true
}

/// Whether `s` begins with `prefix`.
pub fn starts_with(s: &[u8], prefix: &[u8]) -> (hit: bool)
    ensures
        hit == starts_with_spec(s@, prefix@),
{
    matches_at(s, prefix, 0)
}

/// The fields of `s` between occurrences of `sep`.
pub fn split(s: &[u8], sep: u8) -> (parts: Vec<Vec<u8>>)
    ensures
        views(parts@) == split_spec(s@, sep),
{
    let mut parts: Vec<Vec<u8>> = Vec::new();
    let mut cur: Vec<u8> = Vec::new();
    let ghost mut start: int = 0;
    let mut i: usize = 0;
    let ghost whole = s@;
    proof {
        assert(whole.subrange(0, whole.len() as int) =~= whole);
        assert(views(parts@) =~= Seq::<Seq<u8>>::empty());
    }
    while i < s.len()
        invariant
            whole == s@,
            0 <= start <= i <= s.len(),
            cur@ == whole.subrange(start, i as int),
            forall|k: int| start <= k < i ==> whole[k] != sep,
            split_spec(whole, sep) == views(parts@) + split_spec(
                whole.subrange(start, whole.len() as int),
                sep,
            ),
        decreases s.len() - i,
    {
        let b = s[i];
        if b == sep {
            proof {
                let rest = whole.subrange(start, whole.len() as int);
                let at = i - start;
                lemma_find(rest, sep, 0, at);
                assert(rest.subrange(0, at) =~= cur@);
                assert(rest.subrange(at + 1, rest.len() as int) =~= whole.subrange(
                    i + 1,
                    whole.len() as int,
                ));
                assert(views(parts@.push(cur)) =~= views(parts@) + seq![cur@]);
            }
            parts.push(cur);
            cur = Vec::new();
            proof {
                start = i + 1;
            }
            assert(cur@ =~= whole.subrange(start, i + 1));
        } else {
            cur.push(b);
            assert(cur@ =~= whole.subrange(start, i + 1));
        }
        i += 1;
    }
    proof {
        let rest = whole.subrange(start, whole.len() as int);
        lemma_find(rest, sep, 0, rest.len() as int);
        assert(rest =~= cur@);
        assert(views(parts@.push(cur)) =~= views(parts@) + seq![cur@]);
    }
    parts.push(cur);
    parts
}

/// The decimal digits of `n`, most significant first, without leading zeros.
pub open spec fn decimal_spec(n: nat) -> Seq<u8>
    decreases n,
{
    if n < 10 {
        seq![(48 + n) as u8]
    } else {
        decimal_spec(n / 10).push((48 + n % 10) as u8)
    }
}

/// Appends the decimal digits of `n` to `out`.
pub fn append_decimal(out: &mut Vec<u8>, n: u64)
    ensures
        final(out)@ == old(out)@ + decimal_spec(n as nat),
    decreases n,
{
    if n >= 10 {
        append_decimal(out, n / 10);
    }
    let digit: u8 = (48 + n % 10) as u8;
    out.push(digit);
    assert(out@ =~= old(out)@ + decimal_spec(n as nat));
}

/// Whether `b` is one of the ASCII digits.
pub open spec fn is_digit(b: u8) -> bool {
    48 <= b <= 57
}

/// The number that a string of ASCII digits writes, read most significant digit first.
pub open spec fn digits_value(s: Seq<u8>) -> nat
    decreases s.len(),
{
    if s.len() == 0 {
        0
    } else {
        digits_value(s.drop_last()) * 10 + (s.last() - 48) as nat
    }
}

/// The digits of a number, with the sign that may stand before them taken off.
pub open spec fn unsigned_digits(s: Seq<u8>) -> Seq<u8> {
    if s.len() > 0 && s[0] == 43 {
        s.drop_first()
    } else {
        s
    }
}

/// What a decimal number in `s` stands for: a `+` may lead, at least one digit follows,
/// nothing else occurs, and the value is at most `limit`.
pub open spec fn parse_decimal_spec(s: Seq<u8>, limit: nat) -> Option<nat> {
    let digits = unsigned_digits(s);
    if digits.len() > 0 && (forall|k: int| 0 <= k < digits.len() ==> is_digit(#[trigger] digits[k]))
        && digits_value(digits) <= limit {
        Some(digits_value(digits))
    } else {
        None
    }
}

/// A longer string of digits never writes a smaller number than its beginning.
pub proof fn lemma_digits_value_grows(s: Seq<u8>, k: int)
    requires
        0 <= k <= s.len(),
        forall|j: int| 0 <= j < s.len() ==> is_digit(#[trigger] s[j]),
    ensures
        digits_value(s.subrange(0, k)) <= digits_value(s),
    decreases s.len() - k,
{
    if k < s.len() {
        lemma_digits_value_grows(s, k + 1);
        let longer = s.subrange(0, k + 1);
        assert(longer.drop_last() =~= s.subrange(0, k));
    } else {
        assert(s.subrange(0, k) =~= s);
    }
}

/// Reads a decimal number that is at most `limit`.
pub fn parse_decimal(s: &[u8], limit: u64) -> (value: Option<u64>)
    ensures
        match parse_decimal_spec(s@, limit as nat) {
            Some(v) => value == Some(v as u64) && v <= limit,
            None => value.is_none(),
        },
{
    let first: usize = if s.len() > 0 && s[0] == 43 {
        1
    } else {
        0
    };
    let ghost digits = unsigned_digits(s@);
    assert(digits =~= s@.subrange(first as int, s.len() as int));
    if first == s.len() {
        return None;
    }
    let mut acc: u64 = 0;
    let mut i: usize = first;
    while i < s.len()
        invariant
            first <= i <= s.len(),
            digits == unsigned_digits(s@),
            digits == s@.subrange(first as int, s.len() as int),
            forall|k: int| 0 <= k < i - first ==> is_digit(#[trigger] digits[k]),
            acc == digits_value(digits.subrange(0, i - first)),
            acc <= limit,
        decreases s.len() - i,
    {
        let b = s[i];
        let ghost upto = digits.subrange(0, i - first + 1);
        proof {
            assert(upto.drop_last() =~= digits.subrange(0, i - first));
            assert(upto.last() == b);
        }
        if b < 48 || b > 57 {
            assert(!is_digit(digits[i - first]));
            return None;
        }
        let d: u64 = (b - 48) as u64;
        if d > limit || acc > (limit - d) / 10 {
            proof {
                assert(digits_value(upto) == acc * 10 + d);
                assert(acc * 10 + d > limit) by (nonlinear_arith)
                    requires
                        d > limit || acc > (limit - d) / 10,
                        acc >= 0,
                ;
                if forall|k: int| 0 <= k < digits.len() ==> is_digit(#[trigger] digits[k]) {
                    lemma_digits_value_grows(digits, i - first + 1);
                }
            }
            return None;
        }
        proof {
            assert(acc * 10 + d <= limit) by (nonlinear_arith)
                requires
                    acc <= (limit - d) / 10,
                    d <= limit,
            ;
        }
        acc = acc * 10 + d;
        i += 1;
    }
    assert(digits.subrange(0, digits.len() as int) =~= digits);
    Some(acc)
}

/// The digits that write a number are read back as that number.
pub proof fn lemma_decimal_round_trip(n: nat)
    ensures
        decimal_spec(n).len() >= 1,
        forall|k: int| 0 <= k < decimal_spec(n).len() ==> is_digit(#[trigger] decimal_spec(n)[k]),
        digits_value(decimal_spec(n)) == n,
        unsigned_digits(decimal_spec(n)) == decimal_spec(n),
        forall|limit: nat| n <= limit ==> #[trigger] parse_decimal_spec(decimal_spec(n), limit)
            == Some(n),
    decreases n,
{
    let digits = decimal_spec(n);
    if n < 10 {
        assert(digits.drop_last() =~= Seq::<u8>::empty());
        assert(digits_value(digits.drop_last()) == 0);
        assert(digits.last() == (48 + n) as u8);
    } else {
        lemma_decimal_round_trip(n / 10);
        let head = decimal_spec(n / 10);
        assert(digits.drop_last() =~= head);
        assert forall|k: int| 0 <= k < digits.len() implies is_digit(#[trigger] digits[k]) by {
            if k < head.len() {
                assert(digits[k] == head[k]);
            }
        }
        assert(digits[0] == head[0]);
    }
    assert(is_digit(digits[0]));
}

} // verus!
