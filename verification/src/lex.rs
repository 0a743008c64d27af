//! Byte-level lexical helpers: whitespace tokenization, digit runs, and the
//! generic value/unit and multi-value extractors used by the comment parsers.

use vstd::prelude::*;

verus! {

/// ASCII whitespace, the token separator for comment and status text.
pub open spec fn is_ws(b: u8) -> bool {
    b == 32 || b == 9 || b == 10 || b == 12 || b == 13
}

pub open spec fn is_digit(b: u8) -> bool {
    48 <= b <= 57
}

pub open spec fn digit_val(b: u8) -> nat
    recommends
        is_digit(b),
{
    (b - 48) as nat
}

pub open spec fn all_digits(s: Seq<u8>) -> bool {
    forall|k: int| 0 <= k < s.len() ==> is_digit(#[trigger] s[k])
}

/// Numeric value of a run of decimal digits, most significant first.
pub open spec fn digits_val(s: Seq<u8>) -> nat
    decreases s.len(),
{
    if s.len() == 0 {
        0
    } else {
        digits_val(s.drop_last()) * 10 + digit_val(s.last())
    }
}

pub open spec fn is_hex_digit(b: u8) -> bool {
    is_digit(b) || (65 <= b <= 70) || (97 <= b <= 102)
}

pub open spec fn hex_digit_val(b: u8) -> nat
    recommends
        is_hex_digit(b),
{
    if is_digit(b) {
        (b - 48) as nat
    } else if 65 <= b <= 70 {
        (b - 55) as nat
    } else {
        (b - 87) as nat
    }
}

pub open spec fn all_hex_digits(s: Seq<u8>) -> bool {
    forall|k: int| 0 <= k < s.len() ==> is_hex_digit(#[trigger] s[k])
}

pub open spec fn hex_digits_val(s: Seq<u8>) -> nat
    decreases s.len(),
{
    if s.len() == 0 {
        0
    } else {
        hex_digits_val(s.drop_last()) * 16 + hex_digit_val(s.last())
    }
}

/// The digits of an unsigned number, a leading `+` stripped.
pub open spec fn uint_body(s: Seq<u8>) -> Seq<u8> {
    if s.len() >= 1 && s[0] == 43 {
        s.drop_first()
    } else {
        s
    }
}

/// An unsigned decimal number with an optional leading `+`, as the standard
/// integer parsers accept it; `None` on an empty body, a stray character, or a
/// value above `max`.
pub open spec fn spec_parse_uint(s: Seq<u8>, max: u32) -> Option<u32> {
    if uint_body(s).len() >= 1 && all_digits(uint_body(s)) && digits_val(uint_body(s)) <= max {
        Some(digits_val(uint_body(s)) as u32)
    } else {
        None
    }
}

/// A signed decimal number in the range of `i16`.
pub open spec fn spec_parse_i16(s: Seq<u8>) -> Option<i16> {
    if s.len() >= 1 && s[0] == 45 {
        if s.drop_first().len() >= 1 && all_digits(s.drop_first()) && digits_val(s.drop_first())
            <= 32768 {
            Some((-(digits_val(s.drop_first()) as int)) as i16)
        } else {
            None
        }
    } else {
        match spec_parse_uint(s, 32767) {
            Some(v) => Some(v as i16),
            None => None,
        }
    }
}

/// A run of 1 to 8 hexadecimal digits, without a sign.
pub open spec fn spec_parse_hex(s: Seq<u8>) -> Option<u32> {
    if 1 <= s.len() <= 8 && all_hex_digits(s) {
        Some(hex_digits_val(s) as u32)
    } else {
        None
    }
}

proof fn lemma_digits_val_take_step(s: Seq<u8>, i: int)
    requires
        0 <= i < s.len(),
    ensures
        digits_val(s.take(i + 1)) == digits_val(s.take(i)) * 10 + digit_val(s[i]),
{
    assert(s.take(i + 1).drop_last() =~= s.take(i));
    assert(s.take(i + 1).last() == s[i]);
}

proof fn lemma_hex_digits_val_take_step(s: Seq<u8>, i: int)
    requires
        0 <= i < s.len(),
    ensures
        hex_digits_val(s.take(i + 1)) == hex_digits_val(s.take(i)) * 16 + hex_digit_val(s[i]),
{
    assert(s.take(i + 1).drop_last() =~= s.take(i));
    assert(s.take(i + 1).last() == s[i]);
}

fn is_ws_b(b: u8) -> (r: bool)
    ensures
        r == is_ws(b),
{
    b == 32 || b == 9 || b == 10 || b == 12 || b == 13
}

fn is_digit_b(b: u8) -> (r: bool)
    ensures
        r == is_digit(b),
{
    48 <= b && b <= 57
}

fn is_hex_digit_b(b: u8) -> (r: bool)
    ensures
        r == is_hex_digit(b),
{
    (48 <= b && b <= 57) || (65 <= b && b <= 70) || (97 <= b && b <= 102)
}

/// Parses an unsigned decimal with optional `+` sign, at most `max`.
pub fn parse_uint(s: &[u8], max: u32) -> (r: Option<u32>)
    ensures
        r == spec_parse_uint(s@, max),
{
    let body: &[u8] = if s.len() >= 1 && s[0] == 43 {
        &s[1..s.len()]
    } else {
        s
    };
    proof {
        assert(body@ =~= uint_body(s@));
    }
    if body.len() == 0 {
        return None;
    }
    let ghost bs = body@;
    let mut acc: u64 = 0;
    let mut too_big: bool = false;
    let mut i: usize = 0;
    while i < body.len()
        invariant
            0 <= i <= bs.len(),
            bs == body@,
            bs == uint_body(s@),
            bs.len() >= 1,
            all_digits(bs.take(i as int)),
            !too_big ==> acc == digits_val(bs.take(i as int)) && acc <= max,
            too_big ==> digits_val(bs.take(i as int)) > max,
        decreases body.len() - i,
    {
        let b = body[i];
        if !is_digit_b(b) {
            assert(!all_digits(bs));
            return None;
        }
        proof {
            lemma_digits_val_take_step(bs, i as int);
        }
        if !too_big {
            let next: u64 = acc * 10 + ((b - 48) as u64);
            if next > max as u64 {
                too_big = true;
            } else {
                acc = next;
            }
        }
        assert(all_digits(bs.take(i + 1 as int)));
        i = i + 1;
    }
    assert(bs.take(bs.len() as int) =~= bs);
    if too_big {
        None
    } else {
        Some(acc as u32)
    }
}

/// Parses a signed decimal in the range of `i16`.
pub fn parse_i16(s: &[u8]) -> (r: Option<i16>)
    ensures
        r == spec_parse_i16(s@),
{
    if s.len() >= 1 && s[0] == 45 {
        match parse_uint_neg_body(&s[1..s.len()]) {
            Some(m) => {
                if m == 32768 {
                    Some(i16::MIN)
                } else {
                    Some(-(m as i16))
                }
            },
            None => None,
        }
    } else {
        match parse_uint(s, 32767) {
            Some(v) => Some(v as i16),
            None => None,
        }
    }
}

/// The magnitude after a `-` sign: plain digits, at most 32768.
fn parse_uint_neg_body(s: &[u8]) -> (r: Option<u32>)
    ensures
        match r {
            Some(v) => s@.len() >= 1 && all_digits(s@) && digits_val(s@) == v && v <= 32768,
            None => !(s@.len() >= 1 && all_digits(s@) && digits_val(s@) <= 32768),
        },
{
    if s.len() >= 1 && s[0] == 43 {
        // a second sign is not a digit
        assert(!is_digit(s@[0]));
        return None;
    }
    assert(uint_body(s@) == s@);
    parse_uint(s, 32768)
}

/// Parses a run of 1 to 8 hexadecimal digits.
pub fn parse_hex(s: &[u8]) -> (r: Option<u32>)
    ensures
        r == spec_parse_hex(s@),
{
    if s.len() < 1 || s.len() > 8 {
        return None;
    }
    let mut acc: u64 = 0;
    let mut i: usize = 0;
    while i < s.len()
        invariant
            0 <= i <= s@.len(),
            s@.len() <= 8,
            all_hex_digits(s@.take(i as int)),
            acc == hex_digits_val(s@.take(i as int)),
            acc < 0x1_0000_0000u64,
        decreases s.len() - i,
    {
        let b = s[i];
        if !is_hex_digit_b(b) {
            assert(!all_hex_digits(s@));
            return None;
        }
        let d: u64 = if 48 <= b && b <= 57 {
            (b - 48) as u64
        } else if 65 <= b && b <= 70 {
            (b - 55) as u64
        } else {
            (b - 87) as u64
        };
        proof {
            lemma_hex_digits_val_take_step(s@, i as int);
            assert forall|k: int| 0 <= k < i + 1 implies is_hex_digit(
                #[trigger] s@.take(i + 1)[k],
            ) by {
                assert(s@.take(i + 1)[k] == s@[k]);
                if k < i {
                    assert(s@.take(i as int)[k] == s@[k]);
                }
            }
            lemma_hex_val_bound(s@.take(i + 1));
            lemma_pow16_mono((i + 1) as nat, 8);
            lemma_pow16_vals();
        }
        acc = acc * 16 + d;
        assert(all_hex_digits(s@.take(i + 1 as int)));
        i = i + 1;
    }
    assert(s@.take(s@.len() as int) =~= s@);
    Some(acc as u32)
}

/// A run of `n` hex digits is below `16^n`.
proof fn lemma_hex_val_bound(s: Seq<u8>)
    requires
        all_hex_digits(s),
    ensures
        hex_digits_val(s) < pow16(s.len()),
    decreases s.len(),
{
    if s.len() > 0 {
        assert forall|k: int| 0 <= k < s.drop_last().len() implies is_hex_digit(
            #[trigger] s.drop_last()[k],
        ) by {
            assert(s.drop_last()[k] == s[k]);
        }
        lemma_hex_val_bound(s.drop_last());
        assert(is_hex_digit(s.last()));
        assert(hex_digit_val(s.last()) <= 15);
    }
}

pub open spec fn pow16(n: nat) -> nat
    decreases n,
{
    if n == 0 {
        1
    } else {
        16 * pow16((n - 1) as nat)
    }
}

proof fn lemma_pow16_vals()
    ensures
        pow16(8) == 0x1_0000_0000,
{
    assert(pow16(0) == 1);
    assert(pow16(1) == 16);
    assert(pow16(2) == 256);
    assert(pow16(3) == 0x1000);
    assert(pow16(4) == 0x1_0000);
    assert(pow16(5) == 0x10_0000);
    assert(pow16(6) == 0x100_0000);
    assert(pow16(7) == 0x1000_0000);
    assert(pow16(8) == 0x1_0000_0000);
}

proof fn lemma_pow16_mono(a: nat, b: nat)
    requires
        a <= b,
    ensures
        pow16(a) <= pow16(b),
    decreases b,
{
    if a < b {
        lemma_pow16_mono(a, (b - 1) as nat);
        assert(pow16(b) == 16 * pow16((b - 1) as nat));
    }
}

// ---------------------------------------------------------------------------
// Whitespace tokenization
// ---------------------------------------------------------------------------

/// Length of the token starting at `i` (0 if `i` is at whitespace or the end).
pub open spec fn token_len(s: Seq<u8>, i: int) -> int
    decreases s.len() - i when 0 <= i <= s.len()
{
    if i < 0 || i >= s.len() || is_ws(s[i]) {
        0
    } else {
        1 + token_len(s, i + 1)
    }
}

pub proof fn lemma_token_len(s: Seq<u8>, i: int)
    requires
        0 <= i <= s.len(),
    ensures
        0 <= token_len(s, i),
        i + token_len(s, i) <= s.len(),
        i < s.len() && !is_ws(s[i]) ==> token_len(s, i) >= 1,
    decreases s.len() - i,
{
    if i < s.len() && !is_ws(s[i]) {
        lemma_token_len(s, i + 1);
    }
}

/// The whitespace-separated tokens of `s`, from position `i` on.
pub open spec fn tokens_from(s: Seq<u8>, i: int) -> Seq<Seq<u8>>
    decreases s.len() - i when 0 <= i <= s.len() via tokens_from_dec
{
    if i < 0 || i >= s.len() {
        Seq::empty()
    } else if is_ws(s[i]) {
        tokens_from(s, i + 1)
    } else {
        seq![s.subrange(i, i + token_len(s, i))] + tokens_from(s, i + token_len(s, i))
    }
}

#[via_fn]
proof fn tokens_from_dec(s: Seq<u8>, i: int) {
    if 0 <= i < s.len() && !is_ws(s[i]) {
        lemma_token_len(s, i);
    }
}

/// The tokens of the whole of `s`.
pub open spec fn spec_tokens(s: Seq<u8>) -> Seq<Seq<u8>> {
    tokens_from(s, 0)
}

pub open spec fn vecs_view(v: Seq<Vec<u8>>) -> Seq<Seq<u8>> {
    v.map_values(|t: Vec<u8>| t@)
}

/// Splits `s` on runs of ASCII whitespace.
pub fn tokenize(s: &[u8]) -> (r: Vec<Vec<u8>>)
    ensures
        vecs_view(r@) == spec_tokens(s@),
{
    let mut r: Vec<Vec<u8>> = Vec::new();
    let mut i: usize = 0;
    assert(vecs_view(r@) =~= Seq::<Seq<u8>>::empty());
    while i < s.len()
        invariant
            0 <= i <= s@.len(),
            vecs_view(r@) + tokens_from(s@, i as int) == tokens_from(s@, 0),
        decreases s.len() - i,
    {
        if is_ws_b(s[i]) {
            i = i + 1;
        } else {
            proof {
                lemma_token_len(s@, i as int);
            }
            let mut j: usize = i + 1;
            while j < s.len() && !is_ws_b(s[j])
                invariant
                    0 <= i < j <= s@.len(),
                    token_len(s@, i as int) == (j - i) + token_len(s@, j as int),
                decreases s.len() - j,
            {
                proof {
                    lemma_token_len(s@, j as int);
                }
                j = j + 1;
            }
            assert(token_len(s@, j as int) == 0);
            let tok: Vec<u8> = slice_to_vec_u8(&s[i..j]);
            let ghost old_r = r@;
            r.push(tok);
            proof {
                assert(vecs_view(r@) =~= vecs_view(old_r).push(s@.subrange(i as int, j as int)));
                assert(tokens_from(s@, i as int) == seq![
                    s@.subrange(i as int, j as int),
                ] + tokens_from(s@, j as int));
                assert(vecs_view(r@) + tokens_from(s@, j as int) =~= vecs_view(old_r)
                    + tokens_from(s@, i as int));
            }
            i = j;
        }
    }
    assert(tokens_from(s@, i as int) =~= Seq::<Seq<u8>>::empty());
    assert(vecs_view(r@) =~= vecs_view(r@) + tokens_from(s@, i as int));
    r
}

pub fn slice_to_vec_u8(s: &[u8]) -> (r: Vec<u8>)
    ensures
        r@ == s@,
{
    let mut r: Vec<u8> = Vec::new();
    let mut i: usize = 0;
    while i < s.len()
        invariant
            0 <= i <= s@.len(),
            r@ == s@.take(i as int),
        decreases s.len() - i,
    {
        r.push(s[i]);
        assert(r@ =~= s@.take(i + 1 as int));
        i = i + 1;
    }
    assert(s@.take(s@.len() as int) =~= s@);
    r
}

/// First position of `b` in `s` at or after `from`; `s.len()` if absent.
pub open spec fn find_byte(s: Seq<u8>, b: u8, from: int) -> int
    decreases s.len() - from when 0 <= from <= s.len()
{
    if from < 0 || from >= s.len() {
        s.len() as int
    } else if s[from] == b {
        from
    } else {
        find_byte(s, b, from + 1)
    }
}

pub proof fn lemma_find_byte(s: Seq<u8>, b: u8, from: int)
    requires
        0 <= from <= s.len(),
    ensures
        from <= find_byte(s, b, from) <= s.len(),
        find_byte(s, b, from) < s.len() ==> s[find_byte(s, b, from)] == b,
        forall|k: int| from <= k < find_byte(s, b, from) ==> s[k] != b,
    decreases s.len() - from,
{
    if from < s.len() && s[from] != b {
        lemma_find_byte(s, b, from + 1);
    }
}

/// Finds the first position of `b` at or after `from`, or the length.
pub fn find_byte_at(s: &[u8], b: u8, from: usize) -> (r: usize)
    requires
        from <= s@.len(),
    ensures
        r as int == find_byte(s@, b, from as int),
{
    let mut j: usize = from;
    while j < s.len()
        invariant
            from <= j <= s@.len(),
            find_byte(s@, b, from as int) == find_byte(s@, b, j as int),
        decreases s.len() - j,
    {
        if s[j] == b {
            return j;
        }
        j = j + 1;
    }
    j
}

/// Appends one token to an unparsed-token list.
pub fn push_tok(un: &mut Vec<Vec<u8>>, t: &[u8])
    ensures
        vecs_view(final(un)@) == vecs_view(old(un)@).push(t@),
{
    un.push(slice_to_vec_u8(t));
    proof {
        assert(vecs_view(un@) =~= vecs_view(old(un)@).push(t@));
    }
}

/// Tokens joined with a single space, the `unparsed` representation.
pub open spec fn join_tokens(ts: Seq<Seq<u8>>) -> Seq<u8>
    decreases ts.len(),
{
    if ts.len() == 0 {
        Seq::empty()
    } else if ts.len() == 1 {
        ts[0]
    } else {
        join_tokens(ts.drop_last()) + seq![32u8] + ts.last()
    }
}

/// Joins tokens with single spaces.
pub fn join_spaces(ts: &Vec<Vec<u8>>) -> (r: Vec<u8>)
    ensures
        r@ == join_tokens(vecs_view(ts@)),
{
    let mut r: Vec<u8> = Vec::new();
    let mut k: usize = 0;
    assert(r@ =~= join_tokens(vecs_view(ts@).take(0)));
    while k < ts.len()
        invariant
            0 <= k <= ts@.len(),
            r@ == join_tokens(vecs_view(ts@).take(k as int)),
        decreases ts.len() - k,
    {
        if k > 0 {
            r.push(32);
        }
        let t = &ts[k];
        let mut p: usize = 0;
        let ghost base = r@;
        while p < t.len()
            invariant
                0 <= p <= t@.len(),
                r@ == base + t@.take(p as int),
            decreases t.len() - p,
        {
            r.push(t[p]);
            assert(r@ =~= base + t@.take(p + 1 as int));
            p = p + 1;
        }
        proof {
            let tv = vecs_view(ts@);
            assert(t@.take(t@.len() as int) =~= t@);
            assert(tv.take(k + 1 as int).drop_last() =~= tv.take(k as int));
            assert(tv.take(k + 1 as int).last() == tv[k as int]);
            if k == 0 {
                assert(r@ =~= tv.take(1)[0]);
            }
        }
        k = k + 1;
    }
    assert(vecs_view(ts@).take(ts@.len() as int) =~= vecs_view(ts@));
    r
}

// ---------------------------------------------------------------------------
// Value/unit split
// ---------------------------------------------------------------------------

pub open spec fn is_sign(b: u8) -> bool {
    b == 43 || b == 45
}

pub open spec fn is_num_char(b: u8) -> bool {
    is_digit(b) || b == 46
}

pub open spec fn is_alpha(b: u8) -> bool {
    (65 <= b <= 90) || (97 <= b <= 122)
}

pub open spec fn all_alpha(s: Seq<u8>) -> bool {
    forall|k: int| 0 <= k < s.len() ==> is_alpha(#[trigger] s[k])
}

pub open spec fn has_digit(s: Seq<u8>) -> bool {
    exists|k: int| 0 <= k < s.len() && is_digit(#[trigger] s[k])
}

/// Length of the run of digits and dots starting at `i`.
pub open spec fn num_run_len(s: Seq<u8>, i: int) -> int
    decreases s.len() - i when 0 <= i <= s.len()
{
    if i < 0 || i >= s.len() || !is_num_char(s[i]) {
        0
    } else {
        1 + num_run_len(s, i + 1)
    }
}

pub proof fn lemma_num_run_len(s: Seq<u8>, i: int)
    requires
        0 <= i <= s.len(),
    ensures
        0 <= num_run_len(s, i),
        i + num_run_len(s, i) <= s.len(),
    decreases s.len() - i,
{
    if i < s.len() && is_num_char(s[i]) {
        lemma_num_run_len(s, i + 1);
    }
}

/// Length of the optional sign in front of a value/unit token.
pub open spec fn svu_sl(t: Seq<u8>) -> int {
    if t.len() > 0 && is_sign(t[0]) {
        1
    } else {
        0
    }
}

/// End of the numeric part of a value/unit token.
pub open spec fn svu_p(t: Seq<u8>) -> int {
    svu_sl(t) + num_run_len(t, svu_sl(t))
}

/// Where a token splits into a leading signed numeric value and a trailing
/// alphabetic unit: `Some(p)` makes `t.take(p)` the value and `t.skip(p)` the
/// unit. `None` when the token has no such shape.
pub open spec fn svu_split(t: Seq<u8>) -> Option<int> {
    if svu_p(t) > svu_sl(t) && has_digit(t.subrange(svu_sl(t), svu_p(t))) && svu_p(t) < t.len()
        && all_alpha(t.subrange(svu_p(t), t.len() as int)) {
        Some(svu_p(t))
    } else {
        None
    }
}

/// The numeric value of a value/unit token, `t.take(p)`.
pub open spec fn svu_value(t: Seq<u8>) -> Seq<u8>
    recommends
        svu_split(t) is Some,
{
    t.take(svu_p(t))
}

/// The unit suffix of a value/unit token, `t.skip(p)`.
pub open spec fn svu_unit(t: Seq<u8>) -> Seq<u8>
    recommends
        svu_split(t) is Some,
{
    t.skip(svu_p(t))
}

fn is_num_char_b(b: u8) -> (r: bool)
    ensures
        r == is_num_char(b),
{
    (48 <= b && b <= 57) || b == 46
}

fn is_alpha_b(b: u8) -> (r: bool)
    ensures
        r == is_alpha(b),
{
    (65 <= b && b <= 90) || (97 <= b && b <= 122)
}

/// Splits a token into a signed numeric value and a trailing unit; returns the
/// split point.
pub fn split_value_unit(t: &[u8]) -> (r: Option<usize>)
    ensures
        match r {
            Some(p) => svu_split(t@) == Some(p as int),
            None => svu_split(t@) is None,
        },
{
    let sl: usize = if t.len() > 0 && (t[0] == 43 || t[0] == 45) {
        1
    } else {
        0
    };
    let mut p: usize = sl;
    let mut seen_digit: bool = false;
    proof {
        lemma_num_run_len(t@, sl as int);
    }
    while p < t.len() && is_num_char_b(t[p])
        invariant
            sl <= p <= t@.len(),
            sl + num_run_len(t@, sl as int) == p + num_run_len(t@, p as int),
            seen_digit <==> exists|k: int| sl <= k < p && is_digit(#[trigger] t@[k]),
            forall|k: int| sl <= k < p ==> is_num_char(#[trigger] t@[k]),
        decreases t.len() - p,
    {
        proof {
            lemma_num_run_len(t@, p + 1 as int);
        }
        if is_digit_b(t[p]) {
            seen_digit = true;
        }
        p = p + 1;
    }
    assert(num_run_len(t@, p as int) == 0);
    proof {
        let sub = t@.subrange(sl as int, p as int);
        if seen_digit {
            let k = choose|k: int| sl <= k < p && is_digit(#[trigger] t@[k]);
            assert(sub[k - sl] == t@[k]);
            assert(has_digit(sub));
        } else {
            if has_digit(sub) {
                let j = choose|j: int| 0 <= j < sub.len() && is_digit(#[trigger] sub[j]);
                assert(sub[j] == t@[j + sl]);
                assert(false);
            }
        }
        assert(seen_digit == has_digit(sub));
    }
    if p == sl || !seen_digit || p >= t.len() {
        return None;
    }
    let mut q: usize = p;
    while q < t.len()
        invariant
            p <= q <= t@.len(),
            sl as int == svu_sl(t@),
            p as int == svu_p(t@),
            p < t@.len(),
            forall|k: int| p <= k < q ==> is_alpha(#[trigger] t@[k]),
        decreases t.len() - q,
    {
        if !is_alpha_b(t[q]) {
            assert(t@.subrange(p as int, t@.len() as int)[q - p] == t@[q as int]);
            assert(!all_alpha(t@.subrange(p as int, t@.len() as int)));
            return None;
        }
        q = q + 1;
    }
    proof {
        let sub = t@.subrange(p as int, t@.len() as int);
        assert forall|k: int| 0 <= k < sub.len() implies is_alpha(#[trigger] sub[k]) by {
            assert(sub[k] == t@[k + p]);
        }
    }
    Some(p)
}

// ---------------------------------------------------------------------------
// Multi-value extraction (the RF compound field)
// ---------------------------------------------------------------------------

/// State-machine extraction of the numeric runs of a compound field: a run
/// starts at a sign, digit or dot, continues over digits and dots, and a sign
/// always starts a new run.
pub open spec fn ev_from(s: Seq<u8>, i: int, run: Option<int>) -> Seq<Seq<u8>>
    decreases s.len() - i when 0 <= i <= s.len() && (run is Some ==> 0 <= run->Some_0 <= i)
{
    if i < 0 || i >= s.len() {
        match run {
            Some(st) => seq![s.subrange(st, s.len() as int)],
            None => Seq::empty(),
        }
    } else {
        match run {
            None => {
                if is_num_char(s[i]) || is_sign(s[i]) {
                    ev_from(s, i + 1, Some(i))
                } else {
                    ev_from(s, i + 1, None)
                }
            },
            Some(st) => {
                if is_num_char(s[i]) {
                    ev_from(s, i + 1, Some(st))
                } else if is_sign(s[i]) {
                    seq![s.subrange(st, i)] + ev_from(s, i + 1, Some(i))
                } else {
                    seq![s.subrange(st, i)] + ev_from(s, i + 1, None)
                }
            },
        }
    }
}

/// The numeric runs of a compound field, in order.
pub open spec fn spec_extract_values(s: Seq<u8>) -> Seq<Seq<u8>> {
    ev_from(s, 0, None)
}

/// Extracts the numeric runs of a compound field.
pub fn extract_values(s: &[u8]) -> (r: Vec<Vec<u8>>)
    ensures
        vecs_view(r@) == spec_extract_values(s@),
{
    let mut r: Vec<Vec<u8>> = Vec::new();
    let mut run: Option<usize> = None;
    let mut i: usize = 0;
    assert(vecs_view(r@) =~= Seq::<Seq<u8>>::empty());
    while i < s.len()
        invariant
            0 <= i <= s@.len(),
            match run {
                Some(st) => 0 <= st <= i,
                None => true,
            },
            vecs_view(r@) + ev_from(
                s@,
                i as int,
                match run {
                    Some(st) => Some(st as int),
                    None => None,
                },
            ) == ev_from(s@, 0, None),
        decreases s.len() - i,
    {
        let b = s[i];
        let numc = is_num_char_b(b);
        let signc = b == 43 || b == 45;
        match run {
            None => {
                if numc || signc {
                    run = Some(i);
                }
            },
            Some(st) => {
                if numc {
                } else {
                    let ghost old_r = r@;
                    r.push(slice_to_vec_u8(&s[st..i]));
                    proof {
                        assert(vecs_view(r@) =~= vecs_view(old_r).push(
                            s@.subrange(st as int, i as int),
                        ));
                    }
                    if signc {
                        run = Some(i);
                    } else {
                        run = None;
                    }
                }
            },
        }
        i = i + 1;
    }
    match run {
        Some(st) => {
            let ghost old_r = r@;
            r.push(slice_to_vec_u8(&s[st..s.len()]));
            proof {
                assert(vecs_view(r@) =~= vecs_view(old_r).push(
                    s@.subrange(st as int, s@.len() as int),
                ));
            }
        },
        None => {},
    }
    r
}

} // verus!
