//! The text form of a curve: eight pairs `<temp>c:<speed>%`, separated by
//! commas.

use crate::curve::default_bytes;
use crate::curve::Curve;
use crate::number::decimal;
use crate::number::is_digit;
use crate::number::lemma_decimal_digits;
use crate::number::lemma_parse_decimal;
use crate::number::parse_byte;
use crate::number::parse_byte_range;
use crate::number::push_decimal;
use crate::text::chars_of;
use crate::text::free_of;
use crate::text::join;
use crate::text::lemma_join_ends;
use crate::text::lemma_split_join;
use crate::text::lemma_split_plain;
use crate::text::lemma_trim_unchanged;
use crate::text::split;
use crate::text::split_range;
use crate::text::trim;
use crate::text::trim_range;
use vstd::prelude::*;

verus! {

/// Why a text is no curve.
pub enum ParseError {
    /// There are more than eight pairs.
    TooManyPairs,
    /// There are fewer than eight pairs.
    TooFewPairs,
    /// The pair, given here, is not two parts with one `:` between them.
    InvalidFormat(Seq<char>),
    /// The part before the `:` does not end in `c`.
    MissingTempSuffix,
    /// The part after the `:` does not end in `%`.
    MissingSpeedSuffix,
    /// What stands before the `c` or the `%`, given here, is no byte.
    InvalidNumber(Seq<char>),
}

impl ParseError {
    /// The error as a sentence for the user.
    pub open spec fn message(self) -> Seq<char> {
        match self {
            ParseError::TooManyPairs => "Too many pairs."@,
            ParseError::TooFewPairs => "Too few pairs."@,
            ParseError::InvalidFormat(pair) => "Invalid format: "@ + pair,
            ParseError::MissingTempSuffix => "Tempruature must have a c"@,
            ParseError::MissingSpeedSuffix => "Speed must have a %"@,
            ParseError::InvalidNumber(number) => "Invalid number: "@ + number,
        }
    }
}

/// Whether `s` ends with the character `c`.
pub open spec fn ends_with(s: Seq<char>, c: char) -> bool {
    s.len() > 0 && s.last() == c
}

/// `s` without one comma at its end, if it has one.
pub open spec fn without_trailing_comma(s: Seq<char>) -> Seq<char> {
    if ends_with(s, ',') {
        s.drop_last()
    } else {
        s
    }
}

/// The temperature and the speed that one pair denotes. The pair has
/// exactly one `:`; before it stands a byte and `c`, after it a byte and `%`.
/// The faults are looked for in this order: the `:`, the `c`, the `%`, the
/// temperature, the speed.
pub open spec fn parse_pair(pair: Seq<char>) -> Result<(u8, u8), ParseError> {
    let parts = split(pair, ':');
    if parts.len() != 2 {
        Err(ParseError::InvalidFormat(pair))
    } else if !ends_with(parts[0], 'c') {
        Err(ParseError::MissingTempSuffix)
    } else if !ends_with(parts[1], '%') {
        Err(ParseError::MissingSpeedSuffix)
    } else {
        let temp = parts[0].drop_last();
        let speed = parts[1].drop_last();
        match (parse_byte(temp), parse_byte(speed)) {
            (None, _) => Err(ParseError::InvalidNumber(temp)),
            (Some(_), None) => Err(ParseError::InvalidNumber(speed)),
            (Some(t), Some(s)) => Ok((t, s)),
        }
    }
}

/// The pieces of a config text that should each be a pair: the text is
/// trimmed, one comma at its end is dropped, and what is left is split at
/// the commas.
pub open spec fn pairs_of(text: Seq<char>) -> Seq<Seq<char>> {
    split(without_trailing_comma(trim(text)), ',')
}

/// Reads the pairs from number `k` on into `bytes`, in order, each one
/// trimmed first: pair `i` gives byte `i` its temperature and byte `i + 8`
/// its speed. The first fault met ends the reading; a ninth pair is a fault
/// before it is read, and so is the end before the eighth.
pub open spec fn decode_from(pairs: Seq<Seq<char>>, k: int, bytes: Seq<u8>) -> Result<
    Seq<u8>,
    ParseError,
>
    decreases pairs.len() - k,
{
    if k >= pairs.len() {
        if k < 8 {
            Err(ParseError::TooFewPairs)
        } else {
            Ok(bytes)
        }
    } else if k >= 8 {
        Err(ParseError::TooManyPairs)
    } else {
        match parse_pair(trim(pairs[k])) {
            Err(e) => Err(e),
            Ok((temp, speed)) => decode_from(
                pairs,
                k + 1,
                bytes.update(k, temp).update(k + 8, speed),
            ),
        }
    }
}

/// The bytes of the curve that a config text denotes, or why it denotes
/// none.
pub open spec fn decode(text: Seq<char>) -> Result<Seq<u8>, ParseError> {
    decode_from(pairs_of(text), 0, default_bytes())
}

/// The text of one pair.
pub open spec fn pair_text(temp: u8, speed: u8) -> Seq<char> {
    decimal(temp as nat) + seq!['c', ':'] + decimal(speed as nat) + seq!['%']
}

/// The texts of the eight pairs of a curve.
pub open spec fn pair_texts(bytes: Seq<u8>) -> Seq<Seq<char>> {
    Seq::new(8, |i: int| pair_text(bytes[i], bytes[i + 8]))
}

/// The config text of a curve: its eight pairs with a comma between
/// neighbours, and none at the end.
pub open spec fn encode(bytes: Seq<u8>) -> Seq<char> {
    join(pair_texts(bytes), ',')
}

/// What pair `i` of `pairs` denotes, white space around it aside.
pub open spec fn point_of(pairs: Seq<Seq<char>>, i: int) -> Result<(u8, u8), ParseError> {
    parse_pair(trim(pairs[i]))
}

/// Reading from pair `k` on succeeds exactly when there are eight pairs and
/// each one from `k` on denotes a point; the bytes then hold those points,
/// and are unchanged for the pairs before `k`.
proof fn lemma_decode_from(pairs: Seq<Seq<char>>, k: int, bytes: Seq<u8>)
    requires
        0 <= k <= 8,
        k <= pairs.len(),
        bytes.len() == 16,
    ensures
        decode_from(pairs, k, bytes) is Ok <==> pairs.len() == 8 && forall|i: int|
            k <= i < 8 ==> (#[trigger] point_of(pairs, i)) is Ok,
        decode_from(pairs, k, bytes) matches Ok(r) ==> {
            &&& r.len() == 16
            &&& forall|i: int| 0 <= i < k ==> r[i] == bytes[i]
            &&& forall|i: int| 8 <= i < 8 + k ==> r[i] == bytes[i]
            &&& forall|i: int| k <= i < 8 ==> r[i] == (#[trigger] point_of(pairs, i))->Ok_0.0
            &&& forall|i: int|
                8 + k <= i < 16 ==> r[i] == (#[trigger] point_of(pairs, i - 8))->Ok_0.1
        },
    decreases pairs.len() - k,
{
    if k < pairs.len() && k < 8 {
        match point_of(pairs, k) {
            Err(_) => {},
            Ok((temp, speed)) => {
                lemma_decode_from(pairs, k + 1, bytes.update(k, temp).update(k + 8, speed));
                if decode_from(pairs, k, bytes) is Ok {
                    let r = decode_from(pairs, k, bytes)->Ok_0;
                    assert(r[k + 8] == point_of(pairs, (k + 8) - 8)->Ok_0.1);
                }
            },
        }
    }
}

/// A text denotes a curve exactly when it has eight pairs and each of them
/// denotes a point. The curve then holds those points, in the order of the
/// pairs.
pub proof fn lemma_decode_ok(text: Seq<char>)
    ensures
        decode(text) is Ok <==> pairs_of(text).len() == 8 && forall|i: int|
            0 <= i < 8 ==> (#[trigger] point_of(pairs_of(text), i)) is Ok,
        decode(text) matches Ok(bytes) ==> {
            &&& bytes.len() == 16
            &&& forall|i: int|
                0 <= i < 8 ==> bytes[i] == (#[trigger] point_of(pairs_of(text), i))->Ok_0.0
            &&& forall|i: int|
                8 <= i < 16 ==> bytes[i] == (#[trigger] point_of(pairs_of(text), i - 8))->Ok_0.1
        },
{
    lemma_decode_from(pairs_of(text), 0, default_bytes());
}

/// A text with more than eight pairs denotes no curve.
pub proof fn lemma_too_many_pairs(text: Seq<char>)
    requires
        pairs_of(text).len() > 8,
    ensures
        decode(text) is Err,
{
    lemma_decode_ok(text);
}

/// A text with fewer than eight pairs denotes no curve.
pub proof fn lemma_too_few_pairs(text: Seq<char>)
    requires
        pairs_of(text).len() < 8,
    ensures
        decode(text) is Err,
{
    lemma_decode_ok(text);
}

/// A text denotes no curve where one of its pairs has no `:`, or more than
/// one.
pub proof fn lemma_pair_needs_one_colon(text: Seq<char>, i: int)
    requires
        0 <= i < pairs_of(text).len(),
        split(trim(pairs_of(text)[i]), ':').len() != 2,
    ensures
        decode(text) is Err,
{
    lemma_decode_ok(text);
    assert(point_of(pairs_of(text), i) is Err);
}

/// A pair without a `:` is no pair.
pub proof fn lemma_pair_without_colon(pair: Seq<char>)
    requires
        free_of(pair, ':'),
    ensures
        parse_pair(pair) == Err::<(u8, u8), ParseError>(ParseError::InvalidFormat(pair)),
{
    lemma_split_plain(pair, ':');
}

/// A text denotes no curve where the temperature of one of its pairs does
/// not end in `c`, or its speed not in `%`.
pub proof fn lemma_pair_needs_suffixes(text: Seq<char>, i: int)
    requires
        0 <= i < pairs_of(text).len(),
        split(trim(pairs_of(text)[i]), ':').len() == 2,
        !ends_with(split(trim(pairs_of(text)[i]), ':')[0], 'c') || !ends_with(
            split(trim(pairs_of(text)[i]), ':')[1],
            '%',
        ),
    ensures
        decode(text) is Err,
{
    lemma_decode_ok(text);
    assert(point_of(pairs_of(text), i) is Err);
}

/// A pair as it is written is read back as the same temperature and speed.
/// It holds no comma, and no white space at either end.
pub proof fn lemma_pair_text_read_back(temp: u8, speed: u8)
    ensures
        parse_pair(pair_text(temp, speed)) == Ok::<(u8, u8), ParseError>((temp, speed)),
        trim(pair_text(temp, speed)) == pair_text(temp, speed),
        free_of(pair_text(temp, speed), ','),
        pair_text(temp, speed).len() > 0,
        is_digit(pair_text(temp, speed).first()),
        pair_text(temp, speed).last() == '%',
{
    let text = pair_text(temp, speed);
    let before = decimal(temp as nat).push('c');
    let after = decimal(speed as nat).push('%');
    lemma_decimal_digits(temp as nat);
    lemma_decimal_digits(speed as nat);
    lemma_parse_decimal(temp);
    lemma_parse_decimal(speed);
    assert(text =~= before.push(':') + after);
    let parts = seq![before, after];
    assert(parts.drop_last() == seq![before]);
    assert(join(seq![before], ':') == before);
    assert(parts.last() == after);
    assert(join(parts, ':') == text);
    assert forall|i: int| 0 <= i < 2 implies free_of(#[trigger] parts[i], ':') by {
        assert(forall|j: int| 0 <= j < before.len() - 1 ==> is_digit(before[j]));
        assert(forall|j: int| 0 <= j < after.len() - 1 ==> is_digit(after[j]));
    }
    lemma_split_join(parts, ':');
    assert(before.drop_last() == decimal(temp as nat));
    assert(after.drop_last() == decimal(speed as nat));
    assert(is_digit(text[0]));
    assert forall|i: int| 0 <= i < text.len() implies text[i] != ',' by {
        if i < before.len() - 1 {
            assert(is_digit(before[i]));
        } else if i > before.len() && i < text.len() - 1 {
            assert(is_digit(after[i - before.len() - 1]));
        }
    }
    lemma_trim_unchanged(text);
}

/// Reading the pairs of a curve from pair `k` on, into bytes that already
/// agree with the curve on the pairs before `k`, gives the curve.
proof fn lemma_decode_pair_texts(bytes: Seq<u8>, k: int, so_far: Seq<u8>)
    requires
        0 <= k <= 8,
        bytes.len() == 16,
        so_far.len() == 16,
        forall|j: int| 0 <= j < k ==> so_far[j] == bytes[j],
        forall|j: int| 8 <= j < 8 + k ==> so_far[j] == bytes[j],
    ensures
        decode_from(pair_texts(bytes), k, so_far) == Ok::<Seq<u8>, ParseError>(bytes),
    decreases 8 - k,
{
    if k == 8 {
        assert(so_far =~= bytes);
    } else {
        lemma_pair_text_read_back(bytes[k], bytes[k + 8]);
        lemma_decode_pair_texts(bytes, k + 1, so_far.update(k, bytes[k]).update(k + 8, bytes[k + 8]));
    }
}

/// What is written is read back: the config text of a curve denotes that
/// curve.
pub proof fn lemma_round_trip(curve: Curve)
    ensures
        decode(encode(curve@)) == Ok::<Seq<u8>, ParseError>(curve@),
{
    curve.lemma_len();
    let bytes = curve@;
    let texts = pair_texts(bytes);
    let text = encode(bytes);
    assert forall|i: int| 0 <= i < texts.len() implies free_of(#[trigger] texts[i], ',') by {
        lemma_pair_text_read_back(bytes[i], bytes[i + 8]);
    }
    lemma_pair_text_read_back(bytes[0], bytes[8]);
    lemma_pair_text_read_back(bytes[7], bytes[15]);
    lemma_join_ends(texts, ',');
    lemma_trim_unchanged(text);
    lemma_split_join(texts, ',');
    assert(pairs_of(text) == texts);
    lemma_decode_pair_texts(bytes, 0, default_bytes());
}

/// The sentence for `error` and what follows it.
fn sentence(error: &str, rest: &str) -> (r: String)
    ensures
        r@ == error@ + rest@,
{
    let mut r = String::from_str(error);
    r.append(rest);
    r
}

/// Reads the pair that is the part `[from, to)` of `chars`, the characters
/// of `text`.
fn parse_pair_range(text: &str, chars: &Vec<char>, from: usize, to: usize) -> (r: Result<
    (u8, u8),
    String,
>)
    requires
        chars@ == text@,
        from <= to <= chars@.len(),
    ensures
        match parse_pair(chars@.subrange(from as int, to as int)) {
            Ok(point) => r == Ok::<(u8, u8), String>(point),
            Err(e) => r is Err && r->Err_0@ == e.message(),
        },
{
    let parts = split_range(chars, from, to, ':');
    if parts.len() != 2 {
        return Err(sentence("Invalid format: ", text.substring_char(from, to)));
    }
    let (temp_from, temp_to) = parts[0];
    let (speed_from, speed_to) = parts[1];
    if !(temp_from < temp_to && chars[temp_to - 1] == 'c') {
        return Err(String::from_str("Tempruature must have a c"));
    }
    if !(speed_from < speed_to && chars[speed_to - 1] == '%') {
        return Err(String::from_str("Speed must have a %"));
    }
    assert(chars@.subrange(temp_from as int, temp_to as int).drop_last() == chars@.subrange(
        temp_from as int,
        temp_to - 1,
    ));
    assert(chars@.subrange(speed_from as int, speed_to as int).drop_last() == chars@.subrange(
        speed_from as int,
        speed_to - 1,
    ));
    let temp = match parse_byte_range(chars, temp_from, temp_to - 1) {
        Some(temp) => temp,
        None => {
            return Err(
                sentence("Invalid number: ", text.substring_char(temp_from, temp_to - 1)),
            );
        },
    };
    let speed = match parse_byte_range(chars, speed_from, speed_to - 1) {
        Some(speed) => speed,
        None => {
            return Err(
                sentence("Invalid number: ", text.substring_char(speed_from, speed_to - 1)),
            );
        },
    };
    Ok((temp, speed))
}

impl Curve {
    /// Creates a `Curve` from a config string.
    ///
    /// The string holds exactly eight pairs `<temp>c:<speed>%` with commas
    /// between them. White space around the string and around each pair is
    /// ignored, and so is one comma at the end. An `Err` holds a sentence that
    /// says why the string is no curve.
    pub fn from_config_str(config_str: &str) -> (r: Result<Curve, String>)
        ensures
            match decode(config_str@) {
                Ok(bytes) => r is Ok && r->Ok_0@ == bytes,
                Err(e) => r is Err && r->Err_0@ == e.message(),
            },
    {
        let chars = chars_of(config_str);
        let (from, end) = trim_range(&chars, 0, chars.len());
        assert(chars@.subrange(0, chars@.len() as int) == chars@);
        let to = if from < end && chars[end - 1] == ',' {
            end - 1
        } else {
            end
        };
        assert(from < end ==> chars@.subrange(from as int, end as int).drop_last()
            == chars@.subrange(from as int, end - 1));
        let ranges = split_range(&chars, from, to, ',');
        let ghost pairs = pairs_of(config_str@);
        assert(pairs == split(chars@.subrange(from as int, to as int), ','));
        let mut curve = Curve::new();
        let mut k: usize = 0;
        while k < ranges.len()
            invariant
                chars@ == config_str@,
                k <= 8,
                k <= ranges@.len() == pairs.len(),
                forall|j: int|
                    0 <= j < ranges@.len() ==> (#[trigger] ranges@[j]).0 <= ranges@[j].1
                        <= chars@.len() && chars@.subrange(
                        ranges@[j].0 as int,
                        ranges@[j].1 as int,
                    ) == pairs[j],
                decode_from(pairs, k as int, curve@) == decode(config_str@),
            decreases ranges@.len() - k,
        {
            if k >= 8 {
                return Err(String::from_str("Too many pairs."));
            }
            let (pair_from, pair_to) = ranges[k];
            let (pair_from, pair_to) = trim_range(&chars, pair_from, pair_to);
            match parse_pair_range(config_str, &chars, pair_from, pair_to) {
                Err(e) => {
                    return Err(e);
                },
                Ok((temp, speed)) => {
                    curve.set_point(k as u8, temp, speed);
                },
            }
            k = k + 1;
        }
        if k < 8 {
            return Err(String::from_str("Too few pairs."));
        }
        Ok(curve)
    }

    /// Creates the config string of a `Curve`: the one that
    /// [`Curve::from_config_str`] reads back as this curve.
    pub fn as_config_string(&self) -> (r: String)
        ensures
            r@ == encode(self@),
            decode(r@) == Ok::<Seq<u8>, ParseError>(self@),
    {
        proof {
            lemma_round_trip(*self);
        }
        let mut out = String::new();
        let mut i: u8 = 0;
        while i < 8
            invariant
                i <= 8,
                out@ == join(pair_texts(self@).take(i as int), ','),
            decreases 8 - i,
        {
            let (temp, speed) = self.point(i);
            if i > 0 {
                out.append(",");
            }
            push_decimal(&mut out, temp);
            out.append("c:");
            push_decimal(&mut out, speed);
            out.append("%");
            proof {
                reveal_strlit(",");
                reveal_strlit("c:");
                reveal_strlit("%");
                let texts = pair_texts(self@);
                assert(texts.take(i + 1).drop_last() == texts.take(i as int));
                assert(texts.take(i + 1).last() == pair_text(temp, speed));
                assert(","@ =~= seq![',']);
                assert("c:"@ =~= seq!['c', ':']);
                assert("%"@ =~= seq!['%']);
                assert(out@ =~= join(texts.take(i + 1), ','));
            }
            i = i + 1;
        }
        assert(pair_texts(self@).take(8) == pair_texts(self@));
        out
    }
}

} // verus!
