//! Byte-string primitives the parser and the report formatter are built on:
//! whitespace splitting, prefix stripping, decimal reading and rendering,
//! and left padding. All text in this crate is ASCII bytes.

use vstd::prelude::*;

verus! {

/// ASCII whitespace: space, tab, line feed, vertical tab, form feed,
/// carriage return.
pub open spec fn is_ws(b: u8) -> bool {
    b == 32 || b == 9 || b == 10 || b == 11 || b == 12 || b == 13
}

/// Length of the leading run of non-whitespace bytes.
pub open spec fn token_len(s: Seq<u8>) -> nat
    decreases s.len(),
{
    if s.len() == 0 || is_ws(s[0]) {
        0
    } else {
        (1 + token_len(s.skip(1))) as nat
    }
}

/// The maximal runs of non-whitespace bytes of `s`, in order.
pub open spec fn split_ws(s: Seq<u8>) -> Seq<Seq<u8>>
    decreases s.len(),
    via split_ws_decreases
{
    if s.len() == 0 {
        Seq::empty()
    } else if is_ws(s[0]) {
        split_ws(s.skip(1))
    } else {
        seq![s.take(token_len(s) as int)] + split_ws(s.skip(token_len(s) as int))
    }
}

#[via_fn]
proof fn split_ws_decreases(s: Seq<u8>) {
    if s.len() > 0 && !is_ws(s[0]) {
        lemma_token_len_bounds(s);
    }
}

/// The leading token is non-empty exactly where the string starts with a
/// non-whitespace byte, and never runs past the end.
pub proof fn lemma_token_len_bounds(s: Seq<u8>)
    ensures
        token_len(s) <= s.len(),
        s.len() > 0 && !is_ws(s[0]) ==> token_len(s) >= 1,
    decreases s.len(),
{
    if s.len() > 0 && !is_ws(s[0]) {
        lemma_token_len_bounds(s.skip(1));
    }
}

/// The views of a sequence of byte vectors.
pub open spec fn views(v: Seq<Vec<u8>>) -> Seq<Seq<u8>> {
    v.map_values(|x: Vec<u8>| x@)
}

/// `n` is the token length of `s` exactly when the first `n` bytes are
/// non-whitespace and the run stops there.
pub proof fn lemma_token_len_characterize(s: Seq<u8>, n: int)
    requires
        0 <= n <= s.len(),
        forall|k: int| 0 <= k < n ==> !is_ws(s[k]),
        n == s.len() || is_ws(s[n]),
    ensures
        token_len(s) == n,
    decreases n,
{
    if n == 0 {
    } else {
        assert(!is_ws(s[0]));
        let t = s.skip(1);
        assert forall|k: int| 0 <= k < n - 1 implies !is_ws(t[k]) by {
            assert(t[k] == s[k + 1]);
        }
        if n - 1 < t.len() {
            assert(t[n - 1] == s[n]);
        }
        lemma_token_len_characterize(t, n - 1);
    }
}

/// Splits a line into its maximal non-whitespace runs.
pub fn split_whitespace_bytes(s: &Vec<u8>) -> (r: Vec<Vec<u8>>)
    ensures
        views(r@) == split_ws(s@),
{
    let mut r: Vec<Vec<u8>> = Vec::new();
    let mut i: usize = 0;
    proof {
        assert(views(r@) =~= Seq::<Seq<u8>>::empty());
        assert(s@.skip(0) =~= s@);
    }
    while i < s.len()
        invariant
            i <= s.len(),
            split_ws(s@) == views(r@) + split_ws(s@.skip(i as int)),
        decreases s.len() - i,
    {
        if is_whitespace_byte(s[i]) {
            proof {
                assert(s@.skip(i as int).skip(1) =~= s@.skip(i + 1));
            }
            i = i + 1;
        } else {
            let start = i;
            let mut tok: Vec<u8> = Vec::new();
            while i < s.len() && !is_whitespace_byte(s[i])
                invariant
                    start <= i <= s.len(),
                    !is_ws(s@[start as int]),
                    forall|k: int| start <= k < i ==> !is_ws(s@[k]),
                    tok@ == s@.subrange(start as int, i as int),
                decreases s.len() - i,
            {
                tok.push(s[i]);
                proof {
                    assert(tok@ =~= s@.subrange(start as int, i + 1));
                }
                i = i + 1;
            }
            proof {
                let rest = s@.skip(start as int);
                assert forall|k: int| 0 <= k < i - start implies !is_ws(rest[k]) by {
                    assert(rest[k] == s@[start + k]);
                }
                if i < s.len() {
                    assert(rest[i - start] == s@[i as int]);
                }
                lemma_token_len_characterize(rest, i - start);
                assert(rest.take(i - start) =~= s@.subrange(start as int, i as int));
                assert(rest.skip(i - start) =~= s@.skip(i as int));
                assert(split_ws(rest) == seq![tok@] + split_ws(s@.skip(i as int)));
                assert(views(r@.push(tok)) =~= views(r@) + seq![tok@]);
                assert((views(r@) + seq![tok@]) + split_ws(s@.skip(i as int)) =~= views(r@)
                    + (seq![tok@] + split_ws(s@.skip(i as int))));
            }
            r.push(tok);
        }
    }
    proof {
        assert(s@.skip(s@.len() as int) =~= Seq::<u8>::empty());
        assert(views(r@) + split_ws(s@.skip(s@.len() as int)) =~= views(r@));
    }
    r
}

/// Whether `b` is ASCII whitespace.
pub fn is_whitespace_byte(b: u8) -> (r: bool)
    ensures
        r == is_ws(b),
{
    b == 32 || b == 9 || b == 10 || b == 11 || b == 12 || b == 13
}

/// A word: non-empty, with no whitespace byte.
pub open spec fn is_word(t: Seq<u8>) -> bool {
    t.len() > 0 && forall|k: int| 0 <= k < t.len() ==> !is_ws(#[trigger] t[k])
}

/// The tokens joined by single spaces.
pub open spec fn join_spaces(toks: Seq<Seq<u8>>) -> Seq<u8>
    decreases toks.len(),
{
    if toks.len() == 0 {
        Seq::empty()
    } else if toks.len() == 1 {
        toks[0]
    } else {
        toks[0] + seq![32u8] + join_spaces(toks.skip(1))
    }
}

/// Splitting a string that starts with a word followed by a whitespace
/// boundary peels the word off.
pub proof fn lemma_split_ws_word_prefix(t: Seq<u8>, rest: Seq<u8>)
    requires
        is_word(t),
        rest.len() == 0 || is_ws(rest[0]),
    ensures
        split_ws(t + rest) == seq![t] + split_ws(rest),
{
    let s = t + rest;
    assert forall|k: int| 0 <= k < t.len() implies !is_ws(s[k]) by {
        assert(s[k] == t[k]);
    }
    if (t.len() as int) < s.len() {
        assert(s[t.len() as int] == rest[0]);
    }
    lemma_token_len_characterize(s, t.len() as int);
    assert(s.take(t.len() as int) =~= t);
    assert(s.skip(t.len() as int) =~= rest);
    assert(!is_ws(s[0]));
}

/// Splitting on whitespace undoes joining with spaces: the tokens of a
/// space-joined word list are the words again.
pub proof fn lemma_split_ws_join(toks: Seq<Seq<u8>>)
    requires
        forall|k: int| 0 <= k < toks.len() ==> is_word(#[trigger] toks[k]),
    ensures
        split_ws(join_spaces(toks)) == toks,
    decreases toks.len(),
{
    if toks.len() == 0 {
        assert(split_ws(join_spaces(toks)) =~= toks);
    } else if toks.len() == 1 {
        let t = toks[0];
        assert(t + Seq::<u8>::empty() =~= t);
        lemma_split_ws_word_prefix(t, Seq::<u8>::empty());
        assert(seq![t] + split_ws(Seq::<u8>::empty()) =~= toks);
    } else {
        let t = toks[0];
        let rest = seq![32u8] + join_spaces(toks.skip(1));
        assert(rest[0] == 32u8);
        assert(t + rest =~= join_spaces(toks));
        lemma_split_ws_word_prefix(t, rest);
        assert(is_ws(rest[0]));
        assert(rest.skip(1) =~= join_spaces(toks.skip(1)));
        assert(split_ws(rest) == split_ws(join_spaces(toks.skip(1))));
        lemma_split_ws_join(toks.skip(1));
        assert(seq![t] + toks.skip(1) =~= toks);
    }
}

/// ASCII decimal digit.
pub open spec fn is_digit(b: u8) -> bool {
    48 <= b && b <= 57
}

/// Every byte of `s` is a decimal digit.
pub open spec fn all_digits(s: Seq<u8>) -> bool {
    forall|k: int| 0 <= k < s.len() ==> is_digit(s[k])
}

/// The number that the digit string `s` denotes.
pub open spec fn dec_value(s: Seq<u8>) -> int
    decreases s.len(),
{
    if s.len() == 0 {
        0
    } else {
        dec_value(s.drop_last()) * 10 + (s.last() - 48)
    }
}

/// `s` reads as a 64-bit number: non-empty, digits only, and in range.
pub open spec fn parses_as_u64(s: Seq<u8>) -> bool {
    s.len() > 0 && all_digits(s) && dec_value(s) <= u64::MAX
}

/// A digit string denotes a non-negative number.
pub proof fn lemma_dec_value_nonneg(s: Seq<u8>)
    requires
        all_digits(s),
    ensures
        dec_value(s) >= 0,
    decreases s.len(),
{
    if s.len() > 0 {
        let p = s.drop_last();
        assert(all_digits(p)) by {
            assert(forall|k: int| 0 <= k < p.len() ==> p[k] == s[k]);
        }
        lemma_dec_value_nonneg(p);
    }
}

/// Extending a digit string never shrinks its value.
pub proof fn lemma_dec_value_prefix_le(s: Seq<u8>, k: int)
    requires
        all_digits(s),
        0 <= k <= s.len(),
    ensures
        dec_value(s.take(k)) <= dec_value(s),
    decreases s.len() - k,
{
    if k == s.len() {
        assert(s.take(k) =~= s);
    } else {
        let t = s.take(k + 1);
        assert(all_digits(t)) by {
            assert(forall|j: int| 0 <= j < t.len() ==> t[j] == s[j]);
        }
        assert(t.drop_last() =~= s.take(k));
        assert(all_digits(s.take(k))) by {
            assert(forall|j: int| 0 <= j < k ==> s.take(k)[j] == s[j]);
        }
        lemma_dec_value_nonneg(s.take(k));
        assert(dec_value(t) == dec_value(s.take(k)) * 10 + (t.last() - 48));
        assert(dec_value(s.take(k)) * 10 >= dec_value(s.take(k)));
        assert(t.last() == s[k]);
        lemma_dec_value_prefix_le(s, k + 1);
    }
}

/// Reads a decimal 64-bit number. `None` on an empty string, a non-digit
/// byte, or a value over the counter width.
pub fn parse_u64_digits(s: &Vec<u8>) -> (r: Option<u64>)
    ensures
        r is Some <==> parses_as_u64(s@),
        parses_as_u64(s@) ==> r == Some(dec_value(s@) as u64),
{
    if s.len() == 0 {
        return None;
    }
    let mut v: u64 = 0;
    let mut i: usize = 0;
    proof {
        assert(s@.take(0) =~= Seq::<u8>::empty());
    }
    while i < s.len()
        invariant
            0 < s@.len(),
            i <= s.len(),
            forall|k: int| 0 <= k < i ==> is_digit(s@[k]),
            v == dec_value(s@.take(i as int)),
            v <= u64::MAX,
        decreases s.len() - i,
    {
        let b = s[i];
        if b < 48 || b > 57 {
            return None;
        }
        let d: u64 = (b - 48) as u64;
        proof {
            assert(s@.take(i + 1).drop_last() =~= s@.take(i as int));
            assert(s@.take(i + 1).last() == s@[i as int]);
        }
        if v > (u64::MAX - d) / 10 {
            proof {
                assert(dec_value(s@.take(i + 1)) == v * 10 + d);
                assert(v >= (u64::MAX - d) / 10 + 1);
                assert(v * 10 >= ((u64::MAX - d) / 10 + 1) * 10) by (nonlinear_arith)
                    requires
                        v >= (u64::MAX - d) / 10 + 1,
                ;
                assert(((u64::MAX - d) / 10) * 10 + 9 >= u64::MAX - d);
                assert(dec_value(s@.take(i + 1)) > u64::MAX);
                if all_digits(s@) {
                    lemma_dec_value_prefix_le(s@, i + 1);
                }
            }
            return None;
        }
        proof {
            assert(v * 10 + d <= u64::MAX) by (nonlinear_arith)
                requires
                    v <= (u64::MAX - d) / 10,
                    d <= 9,
            ;
        }
        v = v * 10 + d;
        i = i + 1;
    }
    proof {
        assert(s@.take(s@.len() as int) =~= s@);
    }
    Some(v)
}

/// The decimal digits of `n`, most significant first, no sign and no
/// leading zero (a lone zero for zero).
pub open spec fn dec_digits(n: int) -> Seq<u8>
    decreases n,
{
    if n < 10 {
        seq![(48 + if n >= 0 { n } else { 0 }) as u8]
    } else {
        dec_digits(n / 10) + seq![(48 + n % 10) as u8]
    }
}

/// Renders `n` in decimal.
pub fn u128_to_dec(n: u128) -> (r: Vec<u8>)
    ensures
        r@ == dec_digits(n as int),
    decreases n,
{
    if n < 10 {
        let mut v: Vec<u8> = Vec::new();
        v.push(48 + n as u8);
        proof {
            assert(v@ =~= dec_digits(n as int));
        }
        v
    } else {
        let mut v = u128_to_dec(n / 10);
        v.push(48 + (n % 10) as u8);
        proof {
            assert(v@ =~= dec_digits((n / 10) as int) + seq![(48 + n as int % 10) as u8]);
        }
        v
    }
}

/// Renders `n` in decimal.
pub fn u64_to_dec(n: u64) -> (r: Vec<u8>)
    ensures
        r@ == dec_digits(n as int),
{
    u128_to_dec(n as u128)
}

/// Rendering a number in decimal and reading it back yields the number: the
/// digits of `n` read as `n`.
pub proof fn lemma_dec_round_trip(n: int)
    requires
        n >= 0,
    ensures
        all_digits(dec_digits(n)),
        dec_digits(n).len() >= 1,
        dec_value(dec_digits(n)) == n,
    decreases n,
{
    if n < 10 {
        assert(dec_digits(n) =~= seq![(48 + n) as u8]);
        assert(dec_digits(n).drop_last() =~= Seq::<u8>::empty());
        assert(dec_value(Seq::<u8>::empty()) == 0);
        assert(dec_value(dec_digits(n)) == 0 * 10 + ((48 + n) as u8 - 48));
    } else {
        lemma_dec_round_trip(n / 10);
        let d = dec_digits(n / 10);
        let whole = dec_digits(n);
        assert(whole =~= d + seq![(48 + n % 10) as u8]);
        assert(whole.drop_last() =~= d);
        assert(all_digits(whole)) by {
            assert(forall|k: int| 0 <= k < d.len() ==> whole[k] == d[k]);
        }
        assert(dec_value(whole) == dec_value(d) * 10 + (whole.last() - 48));
    }
}

/// `n` spaces.
pub open spec fn spaces(n: int) -> Seq<u8> {
    Seq::new(if n >= 0 { n as nat } else { 0 }, |i: int| 32u8)
}

/// `s` padded on the left with spaces to width `w`; unchanged where it is
/// already that wide.
pub open spec fn pad_left(s: Seq<u8>, w: int) -> Seq<u8> {
    if s.len() >= w {
        s
    } else {
        spaces(w - s.len()) + s
    }
}

/// Pads `s` on the left with spaces to width `w`.
pub fn pad_left_bytes(s: &Vec<u8>, w: usize) -> (r: Vec<u8>)
    ensures
        r@ == pad_left(s@, w as int),
{
    let mut r: Vec<u8> = Vec::new();
    let mut k: usize = 0;
    let pad: usize = if s.len() >= w {
        0
    } else {
        w - s.len()
    };
    while k < pad
        invariant
            k <= pad,
            r@ =~= spaces(k as int),
        decreases pad - k,
    {
        r.push(32u8);
        proof {
            assert(r@ =~= spaces(k + 1));
        }
        k = k + 1;
    }
    let mut j: usize = 0;
    while j < s.len()
        invariant
            j <= s.len(),
            r@ == spaces(pad as int) + s@.take(j as int),
        decreases s.len() - j,
    {
        r.push(s[j]);
        proof {
            assert(r@ =~= spaces(pad as int) + s@.take(j + 1));
        }
        j = j + 1;
    }
    proof {
        assert(s@.take(s@.len() as int) =~= s@);
        if s@.len() >= w {
            assert(spaces(pad as int) =~= Seq::<u8>::empty());
            assert(spaces(pad as int) + s@ =~= s@);
        }
    }
    r
}

/// Whether `p` is a prefix of `s`.
pub open spec fn has_prefix(s: Seq<u8>, p: Seq<u8>) -> bool {
    p.len() <= s.len() && s.take(p.len() as int) == p
}

/// Strips a prefix: the remainder where `p` leads `s`, `None` otherwise.
pub fn strip_prefix_bytes(s: &Vec<u8>, p: &Vec<u8>) -> (r: Option<Vec<u8>>)
    ensures
        r is Some <==> has_prefix(s@, p@),
        r matches Some(t) ==> t@ == s@.skip(p@.len() as int),
{
    if p.len() > s.len() {
        proof {
            assert(!has_prefix(s@, p@));
        }
        return None;
    }
    let mut i: usize = 0;
    while i < p.len()
        invariant
            i <= p.len() <= s.len(),
            forall|k: int| 0 <= k < i ==> s@[k] == p@[k],
        decreases p.len() - i,
    {
        if s[i] != p[i] {
            proof {
                assert(s@.take(p@.len() as int)[i as int] != p@[i as int]);
            }
            return None;
        }
        i = i + 1;
    }
    proof {
        assert(s@.take(p@.len() as int) =~= p@);
    }
    let mut rest: Vec<u8> = Vec::new();
    let mut j: usize = p.len();
    while j < s.len()
        invariant
            p@.len() <= j <= s@.len(),
            rest@ == s@.subrange(p@.len() as int, j as int),
        decreases s.len() - j,
    {
        rest.push(s[j]);
        proof {
            assert(rest@ =~= s@.subrange(p@.len() as int, j + 1));
        }
        j = j + 1;
    }
    proof {
        assert(rest@ =~= s@.skip(p@.len() as int));
    }
    Some(rest)
}

/// Byte-for-byte equality of two vectors.
pub fn bytes_eq(a: &Vec<u8>, b: &Vec<u8>) -> (r: bool)
    ensures
        r == (a@ == b@),
{
    if a.len() != b.len() {
        return false;
    }
    let mut i: usize = 0;
    while i < a.len()
        invariant
            a@.len() == b@.len(),
            i <= a.len(),
            forall|k: int| 0 <= k < i ==> a@[k] == b@[k],
        decreases a.len() - i,
    {
        if a[i] != b[i] {
            return false;
        }
        i = i + 1;
    }
    proof {
        assert(a@ =~= b@);
    }
    true
}

} // verus!
