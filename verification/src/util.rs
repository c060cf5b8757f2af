//! String helpers shared by the modules that parse configuration
//! values and wire payloads: character-level access to `&str`, string
//! equality with a stated meaning, and reading NUL-terminated strings
//! out of payloads.

use vstd::prelude::*;

use vstd::string::StrSliceExecFns;
use vstd::utf8::encode_utf8_decode_utf8;

verus! {

/// Compares two string slices; true exactly when they hold the same
/// characters.
pub fn str_eq(a: &str, b: &str) -> (r: bool)
    ensures
        r == (a@ == b@),
{
    let av = a.as_bytes_vec();
    let bv = b.as_bytes_vec();
    let r = av == bv;
    proof {
        if av@ =~= bv@ {
            encode_utf8_decode_utf8(a@);
            encode_utf8_decode_utf8(b@);
        }
        if a@ == b@ {
            assert(av@ =~= bv@);
        }
    }
    r
}

/// A decimal digit, `'0'` through `'9'`.
pub open spec fn spec_is_digit(c: char) -> bool {
    48 <= (c as u32) <= 57
}

/// The numeric value of a decimal digit.
pub open spec fn spec_digit_val(c: char) -> int {
    (c as u32) - 48
}

/// Every character of `s` is a decimal digit.
pub open spec fn spec_all_digits(s: Seq<char>) -> bool {
    forall|i: int| 0 <= i < s.len() ==> spec_is_digit(#[trigger] s[i])
}

/// The number a digit string denotes in base ten.
pub open spec fn spec_dec_val(s: Seq<char>) -> int
    decreases s.len(),
{
    if s.len() == 0 {
        0
    } else {
        spec_dec_val(s.drop_last()) * 10 + spec_digit_val(s.last())
    }
}

/// What parsing `s` as an unsigned 64-bit decimal yields: an optional
/// leading `'+'`, then at least one digit, denoting a value in range.
pub open spec fn spec_parse_u64(s: Seq<char>) -> Option<u64> {
    let t = if s.len() > 0 && s[0] == '+' {
        s.drop_first()
    } else {
        s
    };
    if t.len() > 0 && spec_all_digits(t) && spec_dec_val(t) <= u64::MAX {
        Some(spec_dec_val(t) as u64)
    } else {
        None
    }
}

/// A digit string denotes a nonnegative number.
proof fn lemma_dec_val_nonneg(s: Seq<char>)
    requires
        spec_all_digits(s),
    ensures
        spec_dec_val(s) >= 0,
    decreases s.len(),
{
    if s.len() > 0 {
        assert(spec_all_digits(s.drop_last())) by {
            assert(forall|i: int|
                0 <= i < s.len() - 1 ==> s.drop_last()[i] == #[trigger] s[i]);
        }
        lemma_dec_val_nonneg(s.drop_last());
    }
}

/// Extending a digit string can only increase the number it denotes.
proof fn lemma_dec_val_take_mono(s: Seq<char>, j: int)
    requires
        spec_all_digits(s),
        0 <= j <= s.len(),
    ensures
        spec_dec_val(s) >= spec_dec_val(s.take(j)),
    decreases s.len() - j,
{
    if j < s.len() {
        lemma_dec_val_take_mono(s, j + 1);
        let t = s.take(j + 1);
        assert(t.drop_last() =~= s.take(j));
        assert(spec_all_digits(t)) by {
            assert(forall|i: int| 0 <= i < t.len() ==> t[i] == #[trigger] s[i]);
        }
        lemma_dec_val_nonneg(s.take(j));
        assert(spec_dec_val(t) == spec_dec_val(s.take(j)) * 10 + spec_digit_val(t.last()));
    } else {
        assert(s.take(j) =~= s);
    }
}

/// Parses `v[from..to]` as an unsigned decimal number, exactly as
/// `spec_parse_u64` reads that character range.
pub fn parse_u64_chars(v: &Vec<char>, from: usize, to: usize) -> (r: Option<u64>)
    requires
        from <= to <= v@.len(),
    ensures
        r == spec_parse_u64(v@.subrange(from as int, to as int)),
{
    let ghost s = v@.subrange(from as int, to as int);
    let mut i: usize = from;
    if i < to && v[i] == '+' {
        i = i + 1;
        assert(s[0] == '+');
    }
    let ghost t = if s.len() > 0 && s[0] == '+' {
        s.drop_first()
    } else {
        s
    };
    assert(t =~= v@.subrange(i as int, to as int));
    if i == to {
        assert(t.len() == 0);
        return None;
    }
    let start = i;
    let mut acc: u64 = 0;
    while i < to
        invariant
            from <= start <= i <= to <= v@.len(),
            s == v@.subrange(from as int, to as int),
            t == (if s.len() > 0 && s[0] == '+' {
                s.drop_first()
            } else {
                s
            }),
            t == v@.subrange(start as int, to as int),
            t.len() > 0,
            spec_all_digits(t.take(i - start)),
            acc == spec_dec_val(t.take(i - start)),
        decreases to - i,
    {
        let c = v[i];
        let u = c as u32;
        if u < 48 || u > 57 {
            assert(!spec_is_digit(t[i - start]));
            return None;
        }
        let d = (u - 48) as u64;
        if acc > (u64::MAX - d) / 10 {
            proof {
                let p = t.take(i - start + 1);
                assert(p.drop_last() =~= t.take(i - start));
                assert(p.last() == t[i - start]);
                assert(spec_all_digits(p)) by {
                    assert(forall|k: int| 0 <= k < p.len() ==> p[k] == #[trigger] t[k]);
                }
                assert(spec_dec_val(p) == acc * 10 + d);
                assert(spec_dec_val(p) > u64::MAX);
                assert(t.take(t.len() as int) =~= t);
                if spec_all_digits(t) {
                    lemma_dec_val_take_mono(t, i - start + 1);
                    assert(spec_dec_val(t) > u64::MAX);
                }
            }
            return None;
        }
        acc = acc * 10 + d;
        i = i + 1;
        proof {
            let p = t.take(i - start);
            assert(p.drop_last() =~= t.take(i - start - 1));
            assert(p.last() == t[i - start - 1]);
        }
    }
    proof {
        assert(t.take(t.len() as int) =~= t);
    }
    Some(acc)
}

/// Error returned when a quantity such as `"3 min 10 s"` cannot be
/// read.
#[derive(Debug, PartialEq, Eq)]
pub enum ParseQuantityWithUnitsError {
    /// An amount was not a decimal number, or the total left the
    /// 64-bit range.
    ParseInt,
    /// The whole string was blank.
    EmptyString,
    /// The final amount had no unit after it.
    MissingUnit,
    /// An unknown unit followed an amount.
    NoSuchUnit { unit: String },
}

/// What reading a quantity can come to; the meaning of
/// `spec_parse_quantity`.
pub enum QuantityOutcome {
    /// Every amount had a known unit; the total in base units.
    Value { total: u64 },
    /// The whole string was blank.
    Empty,
    /// An amount was not a decimal number in the 64-bit range, or the
    /// total left it.
    ParseInt,
    /// The final amount had no unit after it.
    MissingUnit,
    /// An unknown unit followed an amount.
    NoSuchUnit { unit: Seq<char> },
}

/// ASCII whitespace, the characters `trim` strips from such strings.
pub open spec fn spec_is_ws(c: char) -> bool {
    c == ' ' || c == '\t' || c == '\n' || c == '\r' || (c as u32) == 11 || (c as u32) == 12
}

/// The string holds nothing but whitespace.
pub open spec fn spec_is_blank(s: Seq<char>) -> bool {
    forall|i: int| 0 <= i < s.len() ==> spec_is_ws(#[trigger] s[i])
}

/// The first position at or after `i` that holds no space, or the end.
pub open spec fn spec_skip_spaces(s: Seq<char>, i: int) -> int
    decreases s.len() - i,
{
    if i < 0 || i >= s.len() {
        s.len() as int
    } else if s[i] == ' ' {
        spec_skip_spaces(s, i + 1)
    } else {
        i
    }
}

/// The first position at or after `i` that holds a space, or the end.
pub open spec fn spec_token_end(s: Seq<char>, i: int) -> int
    decreases s.len() - i,
{
    if i < 0 || i >= s.len() {
        s.len() as int
    } else if s[i] != ' ' {
        spec_token_end(s, i + 1)
    } else {
        i
    }
}

/// Position boundaries of `spec_skip_spaces` and `spec_token_end`.
proof fn lemma_scan_bounds(s: Seq<char>, i: int)
    requires
        0 <= i <= s.len(),
    ensures
        i <= spec_skip_spaces(s, i) <= s.len(),
        i <= spec_token_end(s, i) <= s.len(),
        i < s.len() && s[i] != ' ' ==> spec_token_end(s, i) > i,
    decreases s.len() - i,
{
    if i < s.len() {
        lemma_scan_bounds(s, i + 1);
    }
}

/// The multiplier of the first table entry whose name is `tok`.
pub open spec fn spec_unit_lookup(units: Seq<(Seq<char>, u64)>, tok: Seq<char>) -> Option<u64>
    decreases units.len(),
{
    if units.len() == 0 {
        None
    } else if units[0].0 == tok {
        Some(units[0].1)
    } else {
        spec_unit_lookup(units.drop_first(), tok)
    }
}

proof fn lemma_unit_lookup_skip(units: Seq<(Seq<char>, u64)>, tok: Seq<char>, i: int)
    requires
        0 <= i <= units.len(),
        forall|j: int| 0 <= j < i ==> (#[trigger] units[j]).0 != tok,
    ensures
        spec_unit_lookup(units, tok) == spec_unit_lookup(units.skip(i), tok),
    decreases i,
{
    if i > 0 {
        assert(units.drop_first() =~= units.skip(1));
        lemma_unit_lookup_skip(units.drop_first(), tok, i - 1);
        assert(units.drop_first().skip(i - 1) =~= units.skip(i));
    } else {
        assert(units.skip(0) =~= units);
    }
}

/// Reading a quantity string against a unit table, one amount/unit
/// pair at a time from position `i`, with `acc` base units already
/// summed.
pub open spec fn spec_quantity_loop(
    s: Seq<char>,
    units: Seq<(Seq<char>, u64)>,
    i: int,
    acc: int,
) -> QuantityOutcome
    decreases s.len() - i,
        when 0 <= i <= s.len() && 0 <= acc <= u64::MAX
    via spec_quantity_loop_dec
{
    let a0 = spec_skip_spaces(s, i);
    if a0 >= s.len() {
        QuantityOutcome::Value { total: acc as u64 }
    } else {
        let a1 = spec_token_end(s, a0);
        match spec_parse_u64(s.subrange(a0, a1)) {
            None => QuantityOutcome::ParseInt,
            Some(amount) => {
                let b0 = spec_skip_spaces(s, a1);
                if b0 >= s.len() {
                    QuantityOutcome::MissingUnit
                } else {
                    let b1 = spec_token_end(s, b0);
                    let tok = s.subrange(b0, b1);
                    match spec_unit_lookup(units, tok) {
                        None => QuantityOutcome::NoSuchUnit { unit: tok },
                        Some(m) => {
                            if acc + amount * m > u64::MAX {
                                QuantityOutcome::ParseInt
                            } else {
                                spec_quantity_loop(s, units, b1, acc + amount * m)
                            }
                        },
                    }
                }
            },
        }
    }
}

#[via_fn]
proof fn spec_quantity_loop_dec(s: Seq<char>, units: Seq<(Seq<char>, u64)>, i: int, acc: int) {
    lemma_scan_bounds(s, i);
    let a0 = spec_skip_spaces(s, i);
    if a0 < s.len() {
        lemma_scan_bounds(s, a0);
        let a1 = spec_token_end(s, a0);
        lemma_scan_bounds(s, a1);
        let b0 = spec_skip_spaces(s, a1);
        if b0 < s.len() {
            lemma_scan_bounds(s, b0);
        }
    }
}

/// What reading `s` as a quantity against `units` comes to: blank
/// strings are refused outright; otherwise amounts and units
/// alternate, each amount is scaled by its unit's multiplier, and the
/// scaled amounts are summed.
pub open spec fn spec_parse_quantity(s: Seq<char>, units: Seq<(Seq<char>, u64)>) -> QuantityOutcome {
    if spec_is_blank(s) {
        QuantityOutcome::Empty
    } else {
        spec_quantity_loop(s, units, 0, 0)
    }
}

/// The name/multiplier view of a unit table.
pub open spec fn spec_units(us: Seq<(&str, u64)>) -> Seq<(Seq<char>, u64)> {
    us.map(|i: int, p: (&str, u64)| (p.0@, p.1))
}

/// The first position at or after `i` of `v` holding no space.
fn skip_spaces_exec(v: &Vec<char>, i: usize) -> (j: usize)
    requires
        i <= v@.len(),
    ensures
        i <= j <= v@.len(),
        j == spec_skip_spaces(v@, i as int),
        j == v@.len() || v@[j as int] != ' ',
{
    let mut j = i;
    while j < v.len() && v[j] == ' '
        invariant
            i <= j <= v@.len(),
            spec_skip_spaces(v@, i as int) == spec_skip_spaces(v@, j as int),
        decreases v@.len() - j,
    {
        j = j + 1;
    }
    j
}

/// The first position at or after `i` of `v` holding a space.
fn token_end_exec(v: &Vec<char>, i: usize) -> (j: usize)
    requires
        i <= v@.len(),
    ensures
        i <= j <= v@.len(),
        j == spec_token_end(v@, i as int),
        j == v@.len() || v@[j as int] == ' ',
{
    let mut j = i;
    while j < v.len() && v[j] != ' '
        invariant
            i <= j <= v@.len(),
            spec_token_end(v@, i as int) == spec_token_end(v@, j as int),
        decreases v@.len() - j,
    {
        j = j + 1;
    }
    j
}

/// Whether `u` holds the same characters as `v[from..to]`.
fn str_eq_range(u: &str, v: &Vec<char>, from: usize, to: usize) -> (r: bool)
    requires
        from <= to <= v@.len(),
    ensures
        r == (u@ == v@.subrange(from as int, to as int)),
{
    let uc = str_chars(u);
    if uc.len() != to - from {
        return false;
    }
    let mut i: usize = 0;
    while i < uc.len()
        invariant
            i <= uc@.len(),
            uc@ == u@,
            from <= to <= v@.len(),
            uc@.len() == to - from,
            forall|j: int| 0 <= j < i ==> uc@[j] == v@.subrange(from as int, to as int)[j],
        decreases uc@.len() - i,
    {
        if uc[i] != v[from + i] {
            assert(uc@[i as int] != v@.subrange(from as int, to as int)[i as int]);
            return false;
        }
        i = i + 1;
    }
    proof {
        assert(u@ =~= v@.subrange(from as int, to as int));
    }
    true
}

/// Reads `s` as a sum of `amount unit` pairs against the given unit
/// table, exactly as `spec_parse_quantity` reads it: each amount is
/// scaled by the multiplier of the unit that follows it, and the
/// scaled amounts are summed.
pub fn parse_quantity_with_units(s: &str, units: &Vec<(&str, u64)>) -> (r: Result<
    u64,
    ParseQuantityWithUnitsError,
>)
    ensures
        ({
            let outcome = spec_parse_quantity(s@, spec_units(units@));
            match r {
                Ok(v) => outcome == (QuantityOutcome::Value { total: v }),
                Err(ParseQuantityWithUnitsError::EmptyString) => outcome == QuantityOutcome::Empty,
                Err(ParseQuantityWithUnitsError::ParseInt) => outcome == QuantityOutcome::ParseInt,
                Err(ParseQuantityWithUnitsError::MissingUnit) => outcome
                    == QuantityOutcome::MissingUnit,
                Err(ParseQuantityWithUnitsError::NoSuchUnit { unit }) => outcome == (
                QuantityOutcome::NoSuchUnit { unit: unit@ }),
            }
        }),
{
    let ghost uview = spec_units(units@);
    let v = str_chars(s);
    let n = v.len();
    let mut i: usize = 0;
    let mut blank = true;
    while i < n
        invariant
            i <= n == v@.len(),
            v@ == s@,
            blank == (forall|j: int| 0 <= j < i ==> spec_is_ws(#[trigger] v@[j])),
        decreases n - i,
    {
        let c = v[i];
        let u = c as u32;
        let ws = c == ' ' || c == '\t' || c == '\n' || c == '\r' || u == 11 || u == 12;
        blank = blank && ws;
        i = i + 1;
    }
    if blank {
        return Err(ParseQuantityWithUnitsError::EmptyString);
    }
    assert(!spec_is_blank(s@));
    let mut pos: usize = 0;
    let mut acc: u64 = 0;
    loop
        invariant
            pos <= n == v@.len(),
            v@ == s@,
            !spec_is_blank(s@),
            uview == spec_units(units@),
            spec_quantity_loop(s@, uview, pos as int, acc as int) == spec_quantity_loop(
                s@,
                uview,
                0,
                0,
            ),
        decreases n - pos,
    {
        let a0 = skip_spaces_exec(&v, pos);
        if a0 == n {
            return Ok(acc);
        }
        let a1 = token_end_exec(&v, a0);
        proof {
            lemma_scan_bounds(s@, a0 as int);
        }
        let amount = match parse_u64_chars(&v, a0, a1) {
            Some(amount) => amount,
            None => {
                return Err(ParseQuantityWithUnitsError::ParseInt);
            },
        };
        let b0 = skip_spaces_exec(&v, a1);
        if b0 == n {
            return Err(ParseQuantityWithUnitsError::MissingUnit);
        }
        let b1 = token_end_exec(&v, b0);
        proof {
            lemma_scan_bounds(s@, b0 as int);
        }
        let ghost tok = s@.subrange(b0 as int, b1 as int);
        let mut ui: usize = 0;
        let mut mult: Option<u64> = None;
        while ui < units.len() && mult.is_none()
            invariant
                ui <= units@.len(),
                uview == spec_units(units@),
                b0 <= b1 <= v@.len(),
                v@ == s@,
                tok == s@.subrange(b0 as int, b1 as int),
                match mult {
                    None => forall|j: int| 0 <= j < ui ==> (#[trigger] uview[j]).0 != tok,
                    Some(m) => spec_unit_lookup(uview, tok) == Some(m),
                },
            decreases units@.len() - ui + (if mult is None { 1int } else { 0int }),
        {
            if str_eq_range(units[ui].0, &v, b0, b1) {
                mult = Some(units[ui].1);
                proof {
                    lemma_unit_lookup_skip(uview, tok, ui as int);
                    assert(uview.skip(ui as int)[0] == uview[ui as int]);
                }
            } else {
                ui = ui + 1;
            }
        }
        let m = match mult {
            Some(m) => m,
            None => {
                proof {
                    lemma_unit_lookup_skip(uview, tok, uview.len() as int);
                }
                let unit = s.substring_char(b0, b1).to_owned();
                return Err(ParseQuantityWithUnitsError::NoSuchUnit { unit });
            },
        };
        assert(spec_unit_lookup(uview, tok) == Some(m));
        let prod = match amount.checked_mul(m) {
            Some(p) => p,
            None => {
                return Err(ParseQuantityWithUnitsError::ParseInt);
            },
        };
        let total = match acc.checked_add(prod) {
            Some(t) => t,
            None => {
                return Err(ParseQuantityWithUnitsError::ParseInt);
            },
        };
        acc = total;
        pos = b1;
        proof {
            lemma_scan_bounds(s@, pos as int);
        }
    }
}

/// Relies on `String::from_utf8`: decoding succeeds exactly on valid
/// UTF-8, and the string holds the characters those bytes encode.
#[verifier::external_body]
pub(crate) fn string_from_utf8(v: Vec<u8>) -> (r: Option<String>)
    ensures
        match r {
            Some(s) => vstd::utf8::valid_utf8(v@) && vstd::utf8::encode_utf8(s@) == v@,
            None => !vstd::utf8::valid_utf8(v@),
        },
{
    match String::from_utf8(v) {
        Ok(s) => Some(s),
        Err(_) => None,
    }
}

/// Error reading a NUL-terminated string off a payload.
#[derive(Debug)]
pub enum ReadCStringError {
    /// The transport failed for a reason other than a clean close.
    Io { cause: std::io::Error },
    /// The bytes before the terminator are not valid UTF-8.
    FromUtf8,
    /// The payload ended before a terminator appeared.
    Disconnected,
}

/// Error reading a NUL-terminated string of known length off a
/// payload.
#[derive(Debug)]
pub enum ReadCStringWithLenError {
    /// The transport failed for a reason other than a clean close.
    Io { cause: std::io::Error },
    /// The string bytes are not valid UTF-8.
    FromUtf8,
    /// The payload ended before the whole string arrived.
    Disconnected,
    /// A NUL byte inside the string, at this position.
    InteriorNul { pos: usize },
    /// The byte after the string is not the NUL terminator.
    NoTerminator,
}

/// No zero byte sits at a position below `k`.
pub open spec fn spec_no_zero_before(s: Seq<u8>, k: int) -> bool {
    forall|j: int| 0 <= j < k ==> (#[trigger] s[j]) != 0
}

/// The position at or after `i` of the first zero byte, or -1.
pub open spec fn spec_find_zero(s: Seq<u8>, i: int) -> int
    decreases s.len() - i,
{
    if i < 0 || i >= s.len() {
        -1
    } else if s[i] == 0 {
        i
    } else {
        spec_find_zero(s, i + 1)
    }
}

/// Reading NUL-terminated strings off the front of a payload.
pub trait ReadCString {
    /// The whole underlying byte string.
    spec fn cs_data(&self) -> Seq<u8>;

    /// How many bytes have been taken off the front already.
    spec fn cs_position(&self) -> int;

    /// The reader's own well-formedness.
    spec fn cs_wf(&self) -> bool;

    /// The bytes not yet read.
    open spec fn cs_remaining(&self) -> Seq<u8> {
        self.cs_data().subrange(self.cs_position(), self.cs_data().len() as int)
    }

    /// Reads bytes up to the first NUL and decodes them as UTF-8;
    /// the terminator is consumed too.  An exhausted payload without
    /// a terminator reads as a disconnect.
    fn read_c_string(&mut self) -> (r: Result<String, ReadCStringError>)
        requires
            old(self).cs_wf(),
        ensures
            final(self).cs_wf(),
            final(self).cs_data() == old(self).cs_data(),
            ({
                let rem = old(self).cs_remaining();
                let z = spec_find_zero(rem, 0);
                match r {
                    Ok(s) => {
                        &&& z >= 0
                        &&& vstd::utf8::valid_utf8(rem.subrange(0, z))
                        &&& vstd::utf8::encode_utf8(s@) == rem.subrange(0, z)
                        &&& final(self).cs_position() == old(self).cs_position() + z + 1
                    },
                    Err(ReadCStringError::FromUtf8) => z >= 0 && !vstd::utf8::valid_utf8(
                        rem.subrange(0, z),
                    ),
                    Err(ReadCStringError::Disconnected) => z < 0,
                    Err(ReadCStringError::Io { .. }) => false,
                }
            }),
    ;

    /// Reads exactly `len` non-NUL bytes and a NUL terminator, and
    /// decodes the bytes as UTF-8.
    fn read_c_string_with_len(&mut self, len: usize) -> (r: Result<
        String,
        ReadCStringWithLenError,
    >)
        requires
            old(self).cs_wf(),
        ensures
            final(self).cs_wf(),
            final(self).cs_data() == old(self).cs_data(),
            ({
                let rem = old(self).cs_remaining();
                match r {
                    Ok(s) => {
                        &&& rem.len() >= len + 1
                        &&& spec_no_zero_before(rem, len as int)
                        &&& rem[len as int] == 0
                        &&& vstd::utf8::valid_utf8(rem.subrange(0, len as int))
                        &&& vstd::utf8::encode_utf8(s@) == rem.subrange(0, len as int)
                        &&& final(self).cs_position() == old(self).cs_position() + len + 1
                    },
                    Err(ReadCStringWithLenError::InteriorNul { pos }) => {
                        &&& pos < len
                        &&& pos < rem.len()
                        &&& rem[pos as int] == 0
                        &&& spec_no_zero_before(rem, pos as int)
                    },
                    Err(ReadCStringWithLenError::Disconnected) => {
                        &&& rem.len() < len + 1
                        &&& spec_no_zero_before(rem, rem.len() as int)
                    },
                    Err(ReadCStringWithLenError::NoTerminator) => {
                        &&& rem.len() >= len + 1
                        &&& spec_no_zero_before(rem, len as int)
                        &&& rem[len as int] != 0
                    },
                    Err(ReadCStringWithLenError::FromUtf8) => {
                        &&& rem.len() >= len + 1
                        &&& spec_no_zero_before(rem, len as int)
                        &&& rem[len as int] == 0
                        &&& !vstd::utf8::valid_utf8(rem.subrange(0, len as int))
                    },
                    Err(ReadCStringWithLenError::Io { .. }) => false,
                }
            }),
    ;
}

/// A copy of a byte vector.
pub(crate) fn clone_bytes(v: &Vec<u8>) -> (r: Vec<u8>)
    ensures
        r@ == v@,
{
    let mut out: Vec<u8> = Vec::new();
    let mut i: usize = 0;
    while i < v.len()
        invariant
            i <= v@.len(),
            out@ == v@.subrange(0, i as int),
        decreases v@.len() - i,
    {
        out.push(v[i]);
        i = i + 1;
        assert(out@ =~= v@.subrange(0, i as int));
    }
    assert(out@ =~= v@);
    out
}

/// Copies the characters of a string slice into a vector, so that
/// parsers can walk them by index.
pub fn str_chars(s: &str) -> (v: Vec<char>)
    ensures
        v@ == s@,
{
    let n = s.unicode_len();
    let mut v: Vec<char> = Vec::new();
    let mut i: usize = 0;
    while i < n
        invariant
            i <= n,
            n == s@.len(),
            v@ == s@.subrange(0, i as int),
        decreases n - i,
    {
        v.push(s.get_char(i));
        i = i + 1;
        assert(v@ =~= s@.subrange(0, i as int));
    }
    assert(v@ =~= s@);
    v
}

} // verus!
