//! Validation and conversion of a raw catalog payload into a
//! [`ProductRecord`](crate::record::ProductRecord).
//!
//! The expected payload shape is an object
//! `{ gtin: number, title: { headline: string }, price: { price: string },
//! images: [ { src: string }, ... ] }`. The identifier must arrive as a
//! numeric literal and is kept as its decimal rendering; a price string that
//! does not parse degrades to zero cents instead of failing the record.
use vstd::prelude::*;

use crate::json::{spec_obj_get, obj_get, JsonValue};
use crate::record::{ProductRecord, RecordModel, MAX_PRICE_CENTS};

verus! {

/// A required payload field, as named by parse failures.
#[derive(Debug, Clone, Copy, PartialEq, Eq, Structural)]
pub enum FieldName {
    Gtin,
    Title,
    Headline,
    Price,
    PriceValue,
    Images,
}

/// Why a payload was rejected: the top level was not a non-empty object, a
/// required field was absent, or the identifier field was not a numeric
/// literal.
#[derive(Debug, Clone, Copy, PartialEq, Eq, Structural)]
pub enum ParseError {
    UnexpectedShape,
    MissingField(FieldName),
    InvalidIdentifierType,
}

// ---------------------------------------------------------------------------
// The price grammar: digits, optionally followed by '.' and one or two
// fractional digits. Anything else — and any value beyond
// MAX_PRICE_CENTS — degrades to zero cents.
// ---------------------------------------------------------------------------
/// Whether `c` is a decimal digit.
pub open spec fn is_digit(c: char) -> bool {
    '0' <= c && c <= '9'
}

/// The numeric value of a digit character.
pub open spec fn digit_val(c: char) -> nat {
    ((c as int) - ('0' as int)) as nat
}

/// Whether every character of `s` is a decimal digit.
pub open spec fn all_digits(s: Seq<char>) -> bool {
    forall|i: int| 0 <= i < s.len() ==> is_digit(s[i])
}

/// The value of a digit string read left to right.
pub open spec fn digits_val(s: Seq<char>) -> nat
    decreases s.len(),
{
    if s.len() == 0 {
        0
    } else {
        digits_val(s.drop_last()) * 10 + digit_val(s.last())
    }
}

/// The index of the first `'.'` in `s`, or `s.len()` if there is none.
pub open spec fn first_dot(s: Seq<char>) -> int
    decreases s.len(),
{
    if s.len() == 0 {
        0
    } else if s[0] == '.' {
        0
    } else {
        1 + first_dot(s.drop_first())
    }
}

/// Whether `s` matches the price grammar: a non-empty integer part, and an
/// optional fractional part of one or two digits.
pub open spec fn price_shape_ok(s: Seq<char>) -> bool {
    let d = first_dot(s);
    &&& 0 < d
    &&& all_digits(s.take(d))
    &&& (d == s.len() || {
        let frac = s.skip(d + 1);
        1 <= frac.len() <= 2 && all_digits(frac)
    })
}

/// The value in cents of a string matching the price grammar.
pub open spec fn price_value(s: Seq<char>) -> nat {
    let d = first_dot(s);
    let whole = digits_val(s.take(d));
    if d == s.len() {
        whole * 100
    } else if s.len() - (d + 1) == 1 {
        whole * 100 + digits_val(s.skip(d + 1)) * 10
    } else {
        whole * 100 + digits_val(s.skip(d + 1))
    }
}

/// What a price string is worth: its value in cents if it matches the grammar
/// and is representable, and zero cents otherwise.
pub open spec fn spec_price_cents(s: Seq<char>) -> u64 {
    if price_shape_ok(s) && price_value(s) <= MAX_PRICE_CENTS {
        price_value(s) as u64
    } else {
        0
    }
}

proof fn lemma_first_dot_at(s: Seq<char>, d: int)
    requires
        0 <= d <= s.len(),
        forall|j: int| 0 <= j < d ==> s[j] != '.',
        d < s.len() ==> s[d] == '.',
    ensures
        first_dot(s) == d,
    decreases d,
{
    if d == 0 {
        if s.len() > 0 {
            assert(s[0] == '.');
        }
    } else {
        assert(s[0] != '.');
        lemma_first_dot_at(s.drop_first(), d - 1);
    }
}

proof fn lemma_digits_val_take_step(s: Seq<char>, i: int)
    requires
        0 <= i < s.len(),
    ensures
        digits_val(s.take(i + 1)) == digits_val(s.take(i)) * 10 + digit_val(s[i]),
{
    assert(s.take(i + 1).drop_last() =~= s.take(i));
    assert(s.take(i + 1).last() == s[i]);
}

proof fn lemma_digits_val_take_monotone(s: Seq<char>, i: int, j: int)
    requires
        0 <= i <= j <= s.len(),
    ensures
        digits_val(s.take(i)) <= digits_val(s.take(j)),
    decreases j - i,
{
    if i < j {
        lemma_digits_val_take_monotone(s, i, j - 1);
        lemma_digits_val_take_step(s, j - 1);
    }
}

/// Reads the digits of `s` between `from` and `to` as a number, unless that
/// number exceeds [`MAX_PRICE_CENTS`].
fn parse_digits_capped(s: &str, from: usize, to: usize) -> (r: Option<u64>)
    requires
        from <= to <= s@.len(),
        forall|j: int| from <= j < to ==> is_digit(s@[j]),
    ensures
        match r {
            Some(v) => v == digits_val(s@.subrange(from as int, to as int)) && v
                <= MAX_PRICE_CENTS,
            None => digits_val(s@.subrange(from as int, to as int)) > MAX_PRICE_CENTS,
        },
{
    let ghost t = s@.subrange(from as int, to as int);
    let mut acc: u64 = 0;
    let mut j: usize = from;
    assert(t.take(0) =~= Seq::<char>::empty());
    while j < to
        invariant
            from <= j <= to,
            acc == digits_val(t.take(j - from)),
            acc <= MAX_PRICE_CENTS,
        decreases to - j,
    {
        let c = s.get_char(j);
        assert(t[j - from] == s@[j as int]);
        let dv: u64 = ((c as u32) - 48) as u64;
        assert(dv == digit_val(t[j - from]));
        proof {
            lemma_digits_val_take_step(t, j - from);
        }
        let next = acc * 10 + dv;
        if next > MAX_PRICE_CENTS {
            proof {
                lemma_digits_val_take_monotone(t, j - from + 1, t.len() as int);
                assert(t.take(t.len() as int) =~= t);
            }
            return None;
        }
        acc = next;
        j += 1;
    }
    assert(t.take(to - from) =~= t);
    Some(acc)
}

/// Best-effort parse of a price string into cents; a string outside the
/// grammar, or a value beyond the representable maximum, is worth zero.
pub fn parse_price_cents(s: &str) -> (r: u64)
    ensures
        r == spec_price_cents(s@),
        r <= MAX_PRICE_CENTS,
{
    let len = s.unicode_len();
    // Find the first dot.
    let mut d: usize = 0;
    while d < len && s.get_char(d) != '.'
        invariant
            d <= len,
            forall|j: int| 0 <= j < d ==> s@[j] != '.',
        decreases len - d,
    {
        d += 1;
    }
    proof {
        lemma_first_dot_at(s@, d as int);
    }
    if d == 0 {
        return 0;
    }
    // The integer part must be all digits.
    let mut j: usize = 0;
    while j < d
        invariant
            j <= d,
            forall|k: int| 0 <= k < j ==> is_digit(s@[k]),
        decreases d - j,
    {
        let c = s.get_char(j);
        if !(('0' <= c) && (c <= '9')) {
            assert(s@.take(d as int)[j as int] == s@[j as int]);
            assert(!all_digits(s@.take(d as int)));
            return 0;
        }
        j += 1;
    }
    assert(all_digits(s@.take(d as int)));
    // The fractional part, if present, must be one or two digits.
    let mut frac_scaled: u64 = 0;
    if d < len {
        let frac_len = len - d - 1;
        if frac_len == 0 || frac_len > 2 {
            return 0;
        }
        let mut k: usize = d + 1;
        while k < len
            invariant
                d + 1 <= k <= len,
                forall|m: int| d + 1 <= m < k ==> is_digit(s@[m]),
            decreases len - k,
        {
            let c = s.get_char(k);
            if !(('0' <= c) && (c <= '9')) {
                assert(s@.skip(d + 1)[k - (d + 1)] == s@[k as int]);
                assert(!all_digits(s@.skip(d + 1)));
                return 0;
            }
            k += 1;
        }
        assert(all_digits(s@.skip(d + 1)));
        let ghost frac = s@.skip(d as int + 1);
        if frac_len == 1 {
            let c = s.get_char(d + 1);
            frac_scaled = (((c as u32) - 48) as u64) * 10;
            proof {
                assert(frac.drop_last() =~= Seq::<char>::empty());
                assert(digits_val(Seq::<char>::empty()) == 0);
                assert(frac.last() == s@[d as int + 1]);
                assert(digits_val(frac) == digit_val(s@[d as int + 1]));
            }
            assert(frac_scaled == digits_val(frac) * 10);
        } else {
            let c1 = s.get_char(d + 1);
            let c2 = s.get_char(d + 2);
            frac_scaled = (((c1 as u32) - 48) as u64) * 10 + (((c2 as u32) - 48) as u64);
            proof {
                let f1 = frac.drop_last();
                assert(f1.drop_last() =~= Seq::<char>::empty());
                assert(digits_val(Seq::<char>::empty()) == 0);
                assert(f1.last() == s@[d as int + 1]);
                assert(digits_val(f1) == digit_val(s@[d as int + 1]));
                assert(frac.last() == s@[d as int + 2]);
                assert(digits_val(frac) == digits_val(f1) * 10 + digit_val(s@[d as int + 2]));
            }
            assert(frac_scaled == digits_val(frac));
        }
    }
    assert(price_shape_ok(s@));
    let whole = match parse_digits_capped(s, 0, d) {
        Some(v) => v,
        None => {
            proof {
                assert(s@.subrange(0, d as int) =~= s@.take(d as int));
            }
            return 0;
        },
    };
    assert(s@.subrange(0, d as int) =~= s@.take(d as int));
    let total = whole * 100 + frac_scaled;
    assert(total == price_value(s@));
    if total > MAX_PRICE_CENTS {
        0
    } else {
        total
    }
}

// ---------------------------------------------------------------------------
// Quote stripping for image references.
// ---------------------------------------------------------------------------
/// `s` with every `'"'` removed: the incidental quoting artifacts an upstream
/// serializer may leave around an image reference.
pub open spec fn strip_quotes(s: Seq<char>) -> Seq<char>
    decreases s.len(),
{
    if s.len() == 0 {
        Seq::empty()
    } else if s[0] == '"' {
        strip_quotes(s.drop_first())
    } else {
        seq![s[0]] + strip_quotes(s.drop_first())
    }
}

/// Removes every double-quote character from `s`.
pub fn strip_quotes_exec(s: &str) -> (r: String)
    ensures
        r@ == strip_quotes(s@),
{
    let len = s.unicode_len();
    let mut out = String::new();
    let mut i: usize = 0;
    assert(s@.skip(0) =~= s@);
    while i < len
        invariant
            i <= len,
            out@ + strip_quotes(s@.skip(i as int)) == strip_quotes(s@),
        decreases len - i,
    {
        let c = s.get_char(i);
        assert(s@.skip(i as int)[0] == s@[i as int]);
        assert(s@.skip(i as int).drop_first() =~= s@.skip(i as int + 1));
        if c != '"' {
            out.push(c);
            assert(out@ + strip_quotes(s@.skip(i as int + 1)) =~= strip_quotes(s@));
        }
        i += 1;
    }
    assert(s@.skip(len as int).len() == 0);
    assert(out@ =~= strip_quotes(s@));
    out
}

// ---------------------------------------------------------------------------
// The payload shape.
// ---------------------------------------------------------------------------
/// The canonical identifier of a payload: the decimal rendering of its
/// numeric `gtin` field.
pub open spec fn spec_identifier(entries: Seq<(String, JsonValue)>) -> Result<
    Seq<char>,
    ParseError,
> {
    match spec_obj_get(entries, "gtin"@) {
        None => Err(ParseError::MissingField(FieldName::Gtin)),
        Some(g) => match g {
            JsonValue::Num(num) => Ok(num@),
            _ => Err(ParseError::InvalidIdentifierType),
        },
    }
}

/// The display name of a payload: its `title.headline` string.
pub open spec fn spec_name(entries: Seq<(String, JsonValue)>) -> Result<Seq<char>, ParseError> {
    match spec_obj_get(entries, "title"@) {
        None => Err(ParseError::MissingField(FieldName::Title)),
        Some(t) => match t {
            JsonValue::Obj(fields) => match spec_obj_get(fields@, "headline"@) {
                None => Err(ParseError::MissingField(FieldName::Headline)),
                Some(h) => match h {
                    JsonValue::Str(name) => Ok(name@),
                    _ => Err(ParseError::UnexpectedShape),
                },
            },
            _ => Err(ParseError::UnexpectedShape),
        },
    }
}

/// The unit price of a payload in cents: the best-effort value of its
/// `price.price` string.
pub open spec fn spec_price(entries: Seq<(String, JsonValue)>) -> Result<u64, ParseError> {
    match spec_obj_get(entries, "price"@) {
        None => Err(ParseError::MissingField(FieldName::Price)),
        Some(p) => match p {
            JsonValue::Obj(fields) => match spec_obj_get(fields@, "price"@) {
                None => Err(ParseError::MissingField(FieldName::PriceValue)),
                Some(v) => match v {
                    JsonValue::Str(price) => Ok(spec_price_cents(price@)),
                    _ => Err(ParseError::UnexpectedShape),
                },
            },
            _ => Err(ParseError::UnexpectedShape),
        },
    }
}

/// The image reference of a payload: the quote-stripped `src` string of the
/// first entry of its `images` list, or nothing if the list is empty or its
/// first entry carries no string `src`.
pub open spec fn spec_image(entries: Seq<(String, JsonValue)>) -> Result<
    Option<Seq<char>>,
    ParseError,
> {
    match spec_obj_get(entries, "images"@) {
        None => Err(ParseError::MissingField(FieldName::Images)),
        Some(im) => match im {
            JsonValue::Arr(items) => if items@.len() == 0 {
                Ok(None)
            } else {
                match items@[0] {
                    JsonValue::Obj(fields) => match spec_obj_get(fields@, "src"@) {
                        Some(s) => match s {
                            JsonValue::Str(src) => Ok(Some(strip_quotes(src@))),
                            _ => Ok(None),
                        },
                        None => Ok(None),
                    },
                    _ => Ok(None),
                }
            },
            _ => Err(ParseError::UnexpectedShape),
        },
    }
}

/// What a payload parses to: the record of a well-shaped payload, or the
/// first error in the order identifier, title, price, images. Only a
/// non-empty top-level object is acceptable.
pub open spec fn spec_parse(v: JsonValue) -> Result<RecordModel, ParseError> {
    match v {
        JsonValue::Obj(entries) => if entries@.len() == 0 {
            Err(ParseError::UnexpectedShape)
        } else {
            match spec_identifier(entries@) {
                Err(e) => Err(e),
                Ok(identifier) => match spec_name(entries@) {
                    Err(e) => Err(e),
                    Ok(name) => match spec_price(entries@) {
                        Err(e) => Err(e),
                        Ok(unit_price_cents) => match spec_image(entries@) {
                            Err(e) => Err(e),
                            Ok(image_reference) => Ok(
                                RecordModel {
                                    identifier,
                                    name,
                                    unit_price_cents,
                                    image_reference,
                                },
                            ),
                        },
                    },
                },
            }
        },
        _ => Err(ParseError::UnexpectedShape),
    }
}

/// Validates and converts a raw catalog payload into a product record,
/// exactly as [`spec_parse`] describes.
pub fn parse(v: &JsonValue) -> (r: Result<ProductRecord, ParseError>)
    ensures
        match r {
            Ok(rec) => spec_parse(*v) is Ok && rec@ == spec_parse(*v)->Ok_0 && rec.wf(),
            Err(e) => spec_parse(*v) == Err::<RecordModel, ParseError>(e),
        },
{
    let entries = match v {
        JsonValue::Obj(entries) => entries,
        _ => {
            return Err(ParseError::UnexpectedShape);
        },
    };
    if entries.len() == 0 {
        return Err(ParseError::UnexpectedShape);
    }
    let identifier = match obj_get(entries, "gtin") {
        None => {
            return Err(ParseError::MissingField(FieldName::Gtin));
        },
        Some(JsonValue::Num(num)) => num.clone(),
        Some(_) => {
            return Err(ParseError::InvalidIdentifierType);
        },
    };
    let name = match obj_get(entries, "title") {
        None => {
            return Err(ParseError::MissingField(FieldName::Title));
        },
        Some(JsonValue::Obj(fields)) => match obj_get(fields, "headline") {
            None => {
                return Err(ParseError::MissingField(FieldName::Headline));
            },
            Some(JsonValue::Str(headline)) => headline.clone(),
            Some(_) => {
                return Err(ParseError::UnexpectedShape);
            },
        },
        Some(_) => {
            return Err(ParseError::UnexpectedShape);
        },
    };
    let unit_price_cents = match obj_get(entries, "price") {
        None => {
            return Err(ParseError::MissingField(FieldName::Price));
        },
        Some(JsonValue::Obj(fields)) => match obj_get(fields, "price") {
            None => {
                return Err(ParseError::MissingField(FieldName::PriceValue));
            },
            Some(JsonValue::Str(price)) => parse_price_cents(price.as_str()),
            Some(_) => {
                return Err(ParseError::UnexpectedShape);
            },
        },
        Some(_) => {
            return Err(ParseError::UnexpectedShape);
        },
    };
    let image_reference = match obj_get(entries, "images") {
        None => {
            return Err(ParseError::MissingField(FieldName::Images));
        },
        Some(JsonValue::Arr(items)) => if items.len() == 0 {
            None
        } else {
            match &items[0] {
                JsonValue::Obj(fields) => match obj_get(fields, "src") {
                    Some(JsonValue::Str(src)) => Some(strip_quotes_exec(src.as_str())),
                    Some(_) => None,
                    None => None,
                },
                _ => None,
            }
        },
        Some(_) => {
            return Err(ParseError::UnexpectedShape);
        },
    };
    Ok(ProductRecord { identifier, name, unit_price_cents, image_reference })
}

/// Law: parsing is deterministic — equal payloads parse to equal results.
pub proof fn lemma_parse_deterministic(a: JsonValue, b: JsonValue)
    requires
        a == b,
    ensures
        spec_parse(a) == spec_parse(b),
{
}

} // verus!
