//! Character-level string utilities with exact specifications.
//!
//! All parsing in this crate works over `Seq<char>` views of `&str` values,
//! so every helper here states precisely which sequence it returns.

use vstd::prelude::*;

verus! {

/// ASCII whitespace, the delimiter set used when trimming and tokenizing.
pub open spec fn is_space(c: char) -> bool {
    c == ' ' || c == '\t' || c == '\n' || c == '\r'
}

/// ASCII uppercase letters fold to lowercase; everything else is unchanged.
pub open spec fn lower_char(c: char) -> char {
    if 'A' <= c && c <= 'Z' {
        (((c as u8) + 32) as char)
    } else {
        c
    }
}

/// Case folding of a whole sequence, character by character.
pub open spec fn lower(s: Seq<char>) -> Seq<char> {
    s.map_values(|c: char| lower_char(c))
}

/// Drop leading whitespace.
pub open spec fn ltrim(s: Seq<char>) -> Seq<char>
    decreases s.len(),
{
    if s.len() == 0 || !is_space(s[0]) {
        s
    } else {
        ltrim(s.drop_first())
    }
}

/// Drop trailing whitespace.
pub open spec fn rtrim(s: Seq<char>) -> Seq<char>
    decreases s.len(),
{
    if s.len() == 0 || !is_space(s[s.len() - 1]) {
        s
    } else {
        rtrim(s.drop_last())
    }
}

/// Whitespace removed from both ends.
pub open spec fn spec_trim(s: Seq<char>) -> Seq<char> {
    ltrim(rtrim(s))
}

proof fn lemma_ltrim_skip(s: Seq<char>, a: int)
    requires
        0 <= a <= s.len(),
        forall|i: int| 0 <= i < a ==> is_space(s[i]),
        a == s.len() || !is_space(s[a]),
    ensures
        ltrim(s) == s.skip(a),
    decreases a,
{
    if a == 0 {
        assert(s.skip(0) =~= s);
    } else {
        assert(is_space(s[0]));
        lemma_ltrim_skip(s.drop_first(), a - 1);
        assert(s.drop_first().skip(a - 1) =~= s.skip(a));
    }
}

proof fn lemma_rtrim_take(s: Seq<char>, b: int)
    requires
        0 <= b <= s.len(),
        forall|i: int| b <= i < s.len() ==> is_space(s[i]),
        b == 0 || !is_space(s[b - 1]),
    ensures
        rtrim(s) == s.take(b),
    decreases s.len() - b,
{
    if b == s.len() {
        assert(s.take(b) =~= s);
    } else {
        assert(is_space(s[s.len() - 1]));
        lemma_rtrim_take(s.drop_last(), b);
        assert(s.drop_last().take(b) =~= s.take(b));
    }
}

proof fn lemma_ltrim_first(s: Seq<char>)
    ensures
        ltrim(s).len() > 0 ==> !is_space(ltrim(s)[0]),
    decreases s.len(),
{
    if s.len() > 0 && is_space(s[0]) {
        lemma_ltrim_first(s.drop_first());
    }
}

proof fn lemma_ltrim_last(s: Seq<char>)
    requires
        s.len() > 0,
        !is_space(s[s.len() - 1]),
    ensures
        ltrim(s).len() > 0,
        ltrim(s)[ltrim(s).len() - 1] == s[s.len() - 1],
    decreases s.len(),
{
    if is_space(s[0]) {
        lemma_ltrim_last(s.drop_first());
    }
}

proof fn lemma_rtrim_last(s: Seq<char>)
    ensures
        rtrim(s).len() > 0 ==> !is_space(rtrim(s)[rtrim(s).len() - 1]),
    decreases s.len(),
{
    if s.len() > 0 && is_space(s[s.len() - 1]) {
        lemma_rtrim_last(s.drop_last());
    }
}

/// Trimming is idempotent: the trimmed text is itself trimmed.
pub proof fn lemma_trim_idempotent(s: Seq<char>)
    ensures
        spec_trim(spec_trim(s)) == spec_trim(s),
{
    let r = rtrim(s);
    let t = ltrim(r);
    lemma_rtrim_last(s);
    lemma_ltrim_first(r);
    if t.len() > 0 {
        lemma_ltrim_last(r);
        assert(!is_space(t[t.len() - 1]));
        assert(rtrim(t) == t);
        assert(ltrim(t) == t);
    } else {
        assert(rtrim(t) == t);
        assert(ltrim(t) == t);
    }
}

/// Trim a string slice; the result is exactly `spec_trim` of the view.
pub fn trim_str<'a>(s: &'a str) -> (r: &'a str)
    ensures
        r@ == spec_trim(s@),
{
    let len = s.unicode_len();
    let mut a: usize = 0;
    while a < len && is_space_exec(s.get_char(a))
        invariant
            0 <= a <= len,
            len == s@.len(),
            forall|i: int| 0 <= i < a ==> is_space(s@[i]),
        decreases len - a,
    {
        a += 1;
    }
    if a == len {
        proof {
            lemma_rtrim_take(s@, 0);
            assert(s@.take(0) =~= Seq::<char>::empty());
            assert(rtrim(s@).len() == 0);
            assert(spec_trim(s@) =~= Seq::<char>::empty());
        }
        let r = s.substring_char(0, 0);
        proof {
            assert(r@ =~= spec_trim(s@));
        }
        return r;
    }
    let mut b: usize = len;
    while b > a && is_space_exec(s.get_char(b - 1))
        invariant
            a <= b <= len,
            a < len,
            len == s@.len(),
            forall|i: int| b <= i < len ==> is_space(s@[i]),
            !is_space(s@[a as int]),
        decreases b,
    {
        b -= 1;
    }
    proof {
        // b > a here: s@[a] is not a space, so the right scan stopped at or after a + 1.
        lemma_rtrim_take(s@, b as int);
        lemma_ltrim_skip(s@.take(b as int), a as int);
        assert(s@.take(b as int).skip(a as int) =~= s@.subrange(a as int, b as int));
    }
    s.substring_char(a, b)
}

/// Executable mirror of `is_space`.
pub fn is_space_exec(c: char) -> (r: bool)
    ensures
        r == is_space(c),
{
    c == ' ' || c == '\t' || c == '\n' || c == '\r'
}

/// Character equality of two string slices.
pub fn str_eq(a: &str, b: &str) -> (r: bool)
    ensures
        r == (a@ == b@),
{
    let alen = a.unicode_len();
    let blen = b.unicode_len();
    if alen != blen {
        return false;
    }
    let mut i: usize = 0;
    while i < alen
        invariant
            0 <= i <= alen,
            alen == a@.len(),
            alen == b@.len(),
            forall|j: int| 0 <= j < i ==> a@[j] == b@[j],
        decreases alen - i,
    {
        if a.get_char(i) != b.get_char(i) {
            return false;
        }
        i += 1;
    }
    proof {
        assert(a@ =~= b@);
    }
    true
}

/// Does `lower(s@.subrange(from, to))` equal `t@`?  Compares a lowercased
/// window of `s` against `t` without allocating.
pub fn window_lower_eq(s: &str, from: usize, to: usize, t: &str) -> (r: bool)
    requires
        from <= to <= s@.len(),
    ensures
        r == (lower(s@.subrange(from as int, to as int)) == t@),
{
    let tlen = t.unicode_len();
    if to - from != tlen {
        assert(lower(s@.subrange(from as int, to as int)).len() != t@.len());
        return false;
    }
    let mut i: usize = 0;
    while i < tlen
        invariant
            0 <= i <= tlen,
            from <= to <= s@.len(),
            to - from == tlen,
            tlen == t@.len(),
            forall|j: int| 0 <= j < i ==> lower_char(s@[from + j]) == t@[j],
        decreases tlen - i,
    {
        let c = lower_char_exec(s.get_char(from + i));
        if c != t.get_char(i) {
            assert(lower(s@.subrange(from as int, to as int))[i as int]
                == lower_char(s@[from + i]));
            return false;
        }
        i += 1;
    }
    proof {
        assert(lower(s@.subrange(from as int, to as int)) =~= t@);
    }
    true
}

/// Does the window of `s` starting at `from` equal `t`?
pub fn window_eq(s: &str, from: usize, t: &str) -> (r: bool)
    requires
        from + t@.len() <= s@.len(),
    ensures
        r == (s@.subrange(from as int, from + t@.len()) == t@),
{
    let slen = s.unicode_len();
    let tlen = t.unicode_len();
    let mut i: usize = 0;
    while i < tlen
        invariant
            0 <= i <= tlen,
            tlen == t@.len(),
            slen == s@.len(),
            from + tlen <= slen,
            forall|j: int| 0 <= j < i ==> s@[from + j] == t@[j],
        decreases tlen - i,
    {
        if s.get_char(from + i) != t.get_char(i) {
            assert(s@.subrange(from as int, from + t@.len())[i as int] == s@[from + i]);
            return false;
        }
        i += 1;
    }
    proof {
        assert(s@.subrange(from as int, from + t@.len()) =~= t@);
    }
    true
}

/// `t` occurs in `s` as a whole whitespace-delimited token starting at `a`.
pub open spec fn is_token_at(s: Seq<char>, t: Seq<char>, a: int) -> bool {
    &&& 0 <= a
    &&& a + t.len() <= s.len()
    &&& t.len() > 0
    &&& (forall|k: int| 0 <= k < t.len() ==> !is_space(#[trigger] t[k]))
    &&& s.subrange(a, a + t.len()) == t
    &&& (a == 0 || is_space(s[a - 1]))
    &&& (a + t.len() == s.len() || is_space(s[a + t.len()]))
}

/// `t` occurs somewhere in `s` as a whole whitespace-delimited token.
pub open spec fn has_token(s: Seq<char>, t: Seq<char>) -> bool {
    exists|a: int| is_token_at(s, t, a)
}

/// Token membership test, the class-attribute matching rule.
pub fn has_token_exec(s: &str, t: &str) -> (r: bool)
    ensures
        r == has_token(s@, t@),
{
    let slen = s.unicode_len();
    let tlen = t.unicode_len();
    if tlen == 0 || tlen > slen {
        return false;
    }
    let mut k: usize = 0;
    while k < tlen
        invariant
            0 <= k <= tlen,
            tlen == t@.len(),
            forall|j: int| 0 <= j < k ==> !is_space(#[trigger] t@[j]),
        decreases tlen - k,
    {
        if is_space_exec(t.get_char(k)) {
            return false;
        }
        k += 1;
    }
    let mut a: usize = 0;
    while a <= slen - tlen
        invariant
            0 <= a <= slen - tlen + 1,
            slen == s@.len(),
            tlen == t@.len(),
            1 <= tlen <= slen,
            forall|j: int| 0 <= j < tlen ==> !is_space(#[trigger] t@[j]),
            forall|b: int| 0 <= b < a ==> !is_token_at(s@, t@, b),
        decreases slen - a,
    {
        let left_ok = a == 0 || is_space_exec(s.get_char(a - 1));
        let right_ok = a + tlen == slen || is_space_exec(s.get_char(a + tlen));
        if left_ok && right_ok && window_eq(s, a, t) {
            assert(is_token_at(s@, t@, a as int));
            return true;
        }
        assert(!is_token_at(s@, t@, a as int));
        a += 1;
    }
    proof {
        assert(forall|b: int| is_token_at(s@, t@, b) ==> 0 <= b && b + t@.len() <= s@.len());
        assert(!has_token(s@, t@));
    }
    false
}

/// Is `c` an ASCII decimal digit?
pub open spec fn is_digit(c: char) -> bool {
    '0' <= c && c <= '9'
}

/// Numeric value of a digit sequence (most significant first).
pub open spec fn digits_val(s: Seq<char>) -> int
    decreases s.len(),
{
    if s.len() == 0 {
        0
    } else {
        digits_val(s.drop_last()) * 10 + (s[s.len() - 1] as int - '0' as int)
    }
}

/// What `parse_count` returns: the value of a non-empty all-digit sequence
/// that fits in `usize`, and nothing else.
pub open spec fn spec_parse_usize(s: Seq<char>) -> Option<usize> {
    if s.len() > 0 && (forall|i: int| 0 <= i < s.len() ==> is_digit(#[trigger] s[i]))
        && digits_val(s) <= usize::MAX {
        Some(digits_val(s) as usize)
    } else {
        None
    }
}

proof fn lemma_digits_val_nonneg(s: Seq<char>)
    requires
        forall|i: int| 0 <= i < s.len() ==> is_digit(#[trigger] s[i]),
    ensures
        digits_val(s) >= 0,
    decreases s.len(),
{
    if s.len() > 0 {
        lemma_digits_val_nonneg(s.drop_last());
    }
}

proof fn lemma_digits_val_extend(s: Seq<char>, i: int)
    requires
        forall|j: int| 0 <= j < s.len() ==> is_digit(#[trigger] s[j]),
        0 <= i <= s.len(),
    ensures
        digits_val(s) >= digits_val(s.take(i)),
        digits_val(s.take(i)) >= 0,
    decreases s.len() - i,
{
    lemma_digits_val_nonneg(s.take(i));
    if i < s.len() {
        lemma_digits_val_extend(s, i + 1);
        assert(s.take(i + 1).drop_last() =~= s.take(i));
        assert(digits_val(s.take(i + 1)) == digits_val(s.take(i)) * 10 + (s[i] as int
            - '0' as int));
        assert(digits_val(s.take(i)) * 10 >= digits_val(s.take(i))) by (nonlinear_arith)
            requires digits_val(s.take(i)) >= 0;
    } else {
        assert(s.take(i) =~= s);
    }
}

/// Parse an unsigned decimal integer: every character must be a digit,
/// the text must be non-empty, and the value must fit.
pub fn parse_count(s: &str) -> (r: Option<usize>)
    ensures
        r == spec_parse_usize(s@),
{
    let len = s.unicode_len();
    if len == 0 {
        return None;
    }
    let mut acc: usize = 0;
    let mut i: usize = 0;
    while i < len
        invariant
            0 <= i <= len,
            len == s@.len(),
            forall|j: int| 0 <= j < i ==> is_digit(#[trigger] s@[j]),
            acc == digits_val(s@.take(i as int)),
        decreases len - i,
    {
        let c = s.get_char(i);
        if !('0' <= c && c <= '9') {
            return None;
        }
        let d = (c as u8) - 48;
        if acc > (usize::MAX - d as usize) / 10 {
            proof {
                assert(s@.take(i as int + 1).drop_last() =~= s@.take(i as int));
                assert(digits_val(s@.take(i as int + 1)) == acc * 10 + d);
                assert(acc * 10 + d > usize::MAX) by (nonlinear_arith)
                    requires
                        acc > (usize::MAX - d as usize) / 10,
                        0 <= d < 10,
                        acc >= 0;
                if forall|j: int| 0 <= j < s@.len() ==> is_digit(#[trigger] s@[j]) {
                    lemma_digits_val_extend(s@, i as int + 1);
                }
            }
            return None;
        }
        proof {
            assert(acc * 10 + d <= usize::MAX) by (nonlinear_arith)
                requires
                    acc <= (usize::MAX - d as usize) / 10,
                    0 <= d < 10,
                    acc >= 0;
            assert(s@.take(i as int + 1).drop_last() =~= s@.take(i as int));
        }
        acc = acc * 10 + d as usize;
        i += 1;
    }
    proof {
        assert(s@.take(len as int) =~= s@);
    }
    Some(acc)
}

/// `t` occurs in `s` starting at index `i` (first occurrence at or after
/// `i`, or nothing).
pub open spec fn find_sub_from(s: Seq<char>, t: Seq<char>, i: int) -> Option<int>
    decreases s.len() - i + 1,
{
    if !(0 <= i && i + t.len() <= s.len()) {
        None
    } else if s.subrange(i, i + t.len()) == t {
        Some(i)
    } else {
        find_sub_from(s, t, i + 1)
    }
}

/// Does `t` occur anywhere in `s`?
pub open spec fn spec_contains(s: Seq<char>, t: Seq<char>) -> bool {
    find_sub_from(s, t, 0) is Some
}

/// First occurrence of `t` in `s`, if any.
pub fn find_sub(s: &str, t: &str) -> (r: Option<usize>)
    ensures
        match r {
            Some(i) => find_sub_from(s@, t@, 0) == Some(i as int),
            None => find_sub_from(s@, t@, 0) is None,
        },
{
    let slen = s.unicode_len();
    let tlen = t.unicode_len();
    if tlen > slen {
        return None;
    }
    if tlen == 0 {
        proof {
            assert(s@.subrange(0, 0) =~= t@);
        }
        return Some(0);
    }
    let mut i: usize = 0;
    while i <= slen - tlen
        invariant
            0 <= i <= slen - tlen + 1,
            slen == s@.len(),
            tlen == t@.len(),
            1 <= tlen <= slen,
            find_sub_from(s@, t@, 0) == find_sub_from(s@, t@, i as int),
        decreases slen - i,
    {
        if window_eq(s, i, t) {
            return Some(i);
        }
        i += 1;
    }
    None
}

/// Substring test.
pub fn contains_str(s: &str, t: &str) -> (r: bool)
    ensures
        r == spec_contains(s@, t@),
{
    match find_sub(s, t) {
        Some(_) => true,
        None => false,
    }
}

/// Does `s` start with `p`?
pub open spec fn spec_starts_with(s: Seq<char>, p: Seq<char>) -> bool {
    p.len() <= s.len() && s.subrange(0, p.len() as int) == p
}

/// Prefix test.
pub fn starts_with_str(s: &str, p: &str) -> (r: bool)
    ensures
        r == spec_starts_with(s@, p@),
{
    let slen = s.unicode_len();
    let plen = p.unicode_len();
    if plen > slen {
        return false;
    }
    window_eq(s, 0, p)
}

/// What remains of `s` after the prefix `p`, when `s` starts with it.
pub open spec fn spec_strip_prefix(s: Seq<char>, p: Seq<char>) -> Option<Seq<char>> {
    if spec_starts_with(s, p) {
        Some(s.skip(p.len() as int))
    } else {
        None
    }
}

/// Remove a literal prefix.
pub fn strip_prefix_str<'a>(s: &'a str, p: &str) -> (r: Option<&'a str>)
    ensures
        match r {
            Some(v) => spec_strip_prefix(s@, p@) == Some(v@),
            None => spec_strip_prefix(s@, p@) is None,
        },
{
    let slen = s.unicode_len();
    let plen = p.unicode_len();
    if plen > slen {
        return None;
    }
    if window_eq(s, 0, p) {
        Some(s.substring_char(plen, slen))
    } else {
        None
    }
}

/// Index of the first space character at or after `k`, or the length.
pub open spec fn space_end_from(s: Seq<char>, k: int) -> int
    decreases s.len() - k,
{
    if !(0 <= k && k < s.len()) {
        s.len() as int
    } else if s[k] == ' ' {
        k
    } else {
        space_end_from(s, k + 1)
    }
}

/// The text before the first space: what `split(' ')` yields first.
pub open spec fn spec_first_word(s: Seq<char>) -> Seq<char> {
    s.take(space_end_from(s, 0))
}

/// The text before the first space.
pub fn first_word<'a>(s: &'a str) -> (r: &'a str)
    ensures
        r@ == spec_first_word(s@),
{
    let len = s.unicode_len();
    let mut k: usize = 0;
    while k < len
        invariant
            0 <= k <= len,
            len == s@.len(),
            space_end_from(s@, 0) == space_end_from(s@, k as int),
        decreases len - k,
    {
        if s.get_char(k) == ' ' {
            return s.substring_char(0, k);
        }
        k += 1;
    }
    s.substring_char(0, len)
}


proof fn lemma_find_sub_bounds(s: Seq<char>, t: Seq<char>, i: int)
    requires
        find_sub_from(s, t, i) is Some,
    ensures
        i <= find_sub_from(s, t, i)->0,
        find_sub_from(s, t, i)->0 + t.len() <= s.len(),
    decreases s.len() - i + 1,
{
    if 0 <= i && i + t.len() <= s.len() && s.subrange(i, i + t.len()) != t {
        lemma_find_sub_bounds(s, t, i + 1);
    }
}

/// The pieces of `s` split on the separator `sep`, in order.  An empty
/// separator leaves `s` whole.
pub open spec fn spec_split(s: Seq<char>, sep: Seq<char>) -> Seq<Seq<char>>
    decreases s.len(),
    via spec_split_dec
{
    if sep.len() == 0 {
        seq![s]
    } else {
        match find_sub_from(s, sep, 0) {
            None => seq![s],
            Some(i) => seq![s.take(i)] + spec_split(s.skip(i + sep.len()), sep),
        }
    }
}

#[via_fn]
proof fn spec_split_dec(s: Seq<char>, sep: Seq<char>) {
    if sep.len() > 0 && find_sub_from(s, sep, 0) is Some {
        lemma_find_sub_bounds(s, sep, 0);
    }
}

/// Splitting always yields at least one piece.
pub proof fn lemma_split_nonempty(s: Seq<char>, sep: Seq<char>)
    ensures
        spec_split(s, sep).len() >= 1,
{
    if sep.len() > 0 {
        match find_sub_from(s, sep, 0) {
            None => {},
            Some(i) => {},
        }
    }
}

/// The `n`th piece of `s` split on `sep`, if there are that many.
pub fn split_nth(s: &str, sep: &str, n: usize) -> (r: Option<String>)
    ensures
        match r {
            Some(v) => n < spec_split(s@, sep@).len() && v@ == spec_split(s@, sep@)[n as int],
            None => n >= spec_split(s@, sep@).len(),
        },
{
    let seplen = sep.unicode_len();
    if seplen == 0 {
        if n == 0 {
            return Some(s.to_owned());
        }
        return None;
    }
    let mut rest: &str = s;
    let mut seen: usize = 0;
    loop
        invariant
            seplen == sep@.len(),
            seplen >= 1,
            seen <= n,
            spec_split(s@, sep@).len() == seen + spec_split(rest@, sep@).len(),
            forall|m: int|
                seen <= m < spec_split(s@, sep@).len() ==> spec_split(s@, sep@)[m] == spec_split(
                    rest@, sep@)[m - seen],
        decreases rest@.len() + n - seen,
    {
        match find_sub(rest, sep) {
            None => {
                if seen == n {
                    assert(spec_split(rest@, sep@) == seq![rest@]);
                    return Some(rest.to_owned());
                }
                assert(spec_split(s@, sep@).len() == seen + 1);
                return None;
            },
            Some(i) => {
                proof {
                    lemma_find_sub_bounds(rest@, sep@, 0);
                }
                if seen == n {
                    let piece = rest.substring_char(0, i);
                    assert(piece@ =~= spec_split(rest@, sep@)[0]);
                    return Some(piece.to_owned());
                }
                let rlen = rest.unicode_len();
                let next = rest.substring_char(i + seplen, rlen);
                proof {
                    assert(next@ =~= rest@.skip(i + seplen));
                }
                rest = next;
                seen += 1;
            },
        }
    }
}

/// Executable mirror of `lower_char`.
pub fn lower_char_exec(c: char) -> (r: char)
    ensures
        r == lower_char(c),
{
    if 'A' <= c && c <= 'Z' {
        (((c as u8) + 32) as char)
    } else {
        c
    }
}

} // verus!
