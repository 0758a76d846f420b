//! The text that a proof comes in: surrounding white space, and base64.
use base64::engine::general_purpose::STANDARD;
use base64::{DecodeError, Engine};
use vstd::prelude::*;

use crate::error::Base64Error;

verus! {

/// The characters with the Unicode property `White_Space`.
pub open spec fn is_white_space(c: char) -> bool {
    let code = c as int;
    ||| 0x09 <= code <= 0x0d
    ||| code == 0x20
    ||| code == 0x85
    ||| code == 0xa0
    ||| code == 0x1680
    ||| 0x2000 <= code <= 0x200a
    ||| 0x2028 <= code <= 0x2029
    ||| code == 0x202f
    ||| code == 0x205f
    ||| code == 0x3000
}

/// `text` without the white space at its two ends.
pub open spec fn trimmed(text: Seq<char>) -> Seq<char>
    decreases text.len(),
{
    if text.len() > 0 && is_white_space(text.first()) {
        trimmed(text.drop_first())
    } else if text.len() > 0 && is_white_space(text.last()) {
        trimmed(text.drop_last())
    } else {
        text
    }
}

/// `str::trim` of the standard library removes leading and trailing white space, as
/// the Unicode property `White_Space` has it, and nothing else.
pub assume_specification[ str::trim ](text: &str) -> (result: &str)
    ensures
        result@ == trimmed(text@),
;

/// The symbol of base64 for a number below 64.
pub open spec fn base64_symbol(value: int) -> char {
    if value < 26 {
        ('A' as int + value) as char
    } else if value < 52 {
        ('a' as int + value - 26) as char
    } else if value < 62 {
        ('0' as int + value - 52) as char
    } else if value == 62 {
        '+'
    } else {
        '/'
    }
}

/// The base64 text of `bytes`: the standard alphabet, padded with `=` to a multiple of
/// four symbols.
pub open spec fn base64_text(bytes: Seq<u8>) -> Seq<char>
    decreases bytes.len(),
{
    if bytes.len() == 0 {
        Seq::empty()
    } else {
        let a = bytes[0] as int;
        let b = if bytes.len() > 1 { bytes[1] as int } else { 0 };
        let c = if bytes.len() > 2 { bytes[2] as int } else { 0 };
        let quad = seq![
            base64_symbol(a / 4),
            base64_symbol(a % 4 * 16 + b / 16),
            if bytes.len() > 1 { base64_symbol(b % 16 * 4 + c / 64) } else { '=' },
            if bytes.len() > 2 { base64_symbol(c % 64) } else { '=' },
        ];
        if bytes.len() <= 3 {
            quad
        } else {
            quad + base64_text(bytes.skip(3))
        }
    }
}

/// What is wrong with a text that is not base64.
pub uninterp spec fn base64_failure(text: Seq<char>) -> Base64Error;

/// `Engine::decode` of the crate `base64`, with its engine `STANDARD`. That engine
/// demands canonical padding and refuses trailing bits, so it succeeds on the encodings
/// of bytes alone, and gives back the bytes. Which of its errors the crate picks for
/// another text depends on the text alone; it is named here and not described.
#[verifier::external_body]
pub(crate) fn decode_base64(text: &str) -> (result: Result<Vec<u8>, Base64Error>)
    ensures
        match result {
            Ok(bytes) => text@ == base64_text(bytes@),
            Err(e) => e == base64_failure(text@) && forall|bytes: Seq<u8>|
                text@ != #[trigger] base64_text(bytes),
        },
{
    match STANDARD.decode(text) {
        Ok(bytes) => Ok(bytes),
        Err(DecodeError::InvalidByte(offset, byte)) => Err(Base64Error::InvalidByte(offset, byte)),
        Err(DecodeError::InvalidLength(length)) => Err(Base64Error::InvalidLength(length)),
        Err(DecodeError::InvalidLastSymbol(offset, symbol)) => Err(
            Base64Error::InvalidLastSymbol(offset, symbol),
        ),
        Err(DecodeError::InvalidPadding) => Err(Base64Error::InvalidPadding),
    }
}

/// The bytes whose base64 text is `text`, or why there are none.
pub open spec fn base64_bytes(text: Seq<char>) -> Result<Seq<u8>, Base64Error> {
    if exists|bytes: Seq<u8>| text == #[trigger] base64_text(bytes) {
        Ok(choose|bytes: Seq<u8>| text == #[trigger] base64_text(bytes))
    } else {
        Err(base64_failure(text))
    }
}

proof fn base64_symbol_is_injective(v: int, w: int)
    requires
        0 <= v < 64,
        0 <= w < 64,
    ensures
        base64_symbol(v) == base64_symbol(w) ==> v == w,
        base64_symbol(v) != '=',
{
}

/// Different bytes have different texts.
pub proof fn base64_text_is_injective(x: Seq<u8>, y: Seq<u8>)
    requires
        base64_text(x) == base64_text(y),
    ensures
        x == y,
    decreases x.len(),
{
    let s = base64_text(x);
    let t = base64_text(y);
    if x.len() == 0 || y.len() == 0 {
        assert(s.len() == 0 <==> x.len() == 0);
        assert(t.len() == 0 <==> y.len() == 0);
        assert(x =~= y);
    } else {
        assert(s[0] == t[0] && s[1] == t[1] && s[2] == t[2] && s[3] == t[3]);
        let (a, b, c) = (
            x[0] as int,
            if x.len() > 1 { x[1] as int } else { 0 },
            if x.len() > 2 { x[2] as int } else { 0 },
        );
        let (d, e, f) = (
            y[0] as int,
            if y.len() > 1 { y[1] as int } else { 0 },
            if y.len() > 2 { y[2] as int } else { 0 },
        );
        base64_symbol_is_injective(a / 4, d / 4);
        base64_symbol_is_injective(a % 4 * 16 + b / 16, d % 4 * 16 + e / 16);
        base64_symbol_is_injective(b % 16 * 4 + c / 64, e % 16 * 4 + f / 64);
        base64_symbol_is_injective(e % 16 * 4 + f / 64, b % 16 * 4 + c / 64);
        base64_symbol_is_injective(c % 64, f % 64);
        base64_symbol_is_injective(f % 64, c % 64);
        assert(a == d && b == e && c == f);
        assert(x.len() > 3 <==> s.len() > 4) by {
            if x.len() > 3 {
                assert(base64_text(x.skip(3)).len() > 0);
            }
        }
        assert(y.len() > 3 <==> t.len() > 4) by {
            if y.len() > 3 {
                assert(base64_text(y.skip(3)).len() > 0);
            }
        }
        if x.len() > 3 {
            assert(s.skip(4) =~= base64_text(x.skip(3)));
            assert(t.skip(4) =~= base64_text(y.skip(3)));
            base64_text_is_injective(x.skip(3), y.skip(3));
            assert forall|i: int| 0 <= i < x.len() implies x[i] == y[i] by {
                if i >= 3 {
                    assert(x[i] == x.skip(3)[i - 3]);
                    assert(y[i] == y.skip(3)[i - 3]);
                }
            }
            assert(x.len() == x.skip(3).len() + 3);
            assert(y.len() == y.skip(3).len() + 3);
            assert(x =~= y);
        } else {
            assert(x =~= y);
        }
    }
}

/// What is decoded of an encoding is what was encoded.
pub proof fn base64_bytes_of_text(bytes: Seq<u8>)
    ensures
        base64_bytes(base64_text(bytes)) == Ok::<Seq<u8>, Base64Error>(bytes),
{
    let text = base64_text(bytes);
    let chosen = choose|b: Seq<u8>| text == #[trigger] base64_text(b);
    base64_text_is_injective(bytes, chosen);
}

proof fn base64_text_has_no_white_space(bytes: Seq<u8>)
    ensures
        forall|i: int|
            0 <= i < base64_text(bytes).len() ==> !is_white_space(#[trigger] base64_text(bytes)[i]),
    decreases bytes.len(),
{
    if bytes.len() > 3 {
        base64_text_has_no_white_space(bytes.skip(3));
        assert forall|i: int| 0 <= i < base64_text(bytes).len() implies !is_white_space(
            #[trigger] base64_text(bytes)[i],
        ) by {
            if i >= 4 {
                assert(base64_text(bytes)[i] == base64_text(bytes.skip(3))[i - 4]);
            }
        }
    }
}

/// Base64 text has no white space to trim.
pub proof fn base64_text_is_not_trimmed(bytes: Seq<u8>)
    ensures
        trimmed(base64_text(bytes)) == base64_text(bytes),
{
    base64_text_has_no_white_space(bytes);
}

/// White space around a text does not change what is left when it is trimmed.
pub proof fn white_space_around_is_trimmed(before: Seq<char>, text: Seq<char>, after: Seq<char>)
    requires
        forall|i: int| 0 <= i < before.len() ==> is_white_space(#[trigger] before[i]),
        forall|i: int| 0 <= i < after.len() ==> is_white_space(#[trigger] after[i]),
    ensures
        trimmed(before + text + after) == trimmed(text),
    decreases before.len() + text.len() + after.len(),
{
    let whole = before + text + after;
    if before.len() > 0 {
        assert(whole.first() == before[0]);
        assert(whole.drop_first() =~= before.drop_first() + text + after);
        white_space_around_is_trimmed(before.drop_first(), text, after);
    } else if text.len() > 0 && is_white_space(text.first()) {
        assert(whole.drop_first() =~= before + text.drop_first() + after);
        white_space_around_is_trimmed(before, text.drop_first(), after);
    } else if after.len() > 0 {
        if text.len() > 0 {
            assert(whole.last() == after.last());
            assert(whole.drop_last() =~= before + text + after.drop_last());
            white_space_around_is_trimmed(before, text, after.drop_last());
        } else {
            assert(whole.first() == after[0]);
            assert(whole.drop_first() =~= before + text + after.drop_first());
            white_space_around_is_trimmed(before, text, after.drop_first());
        }
    } else {
        assert(whole =~= text);
    }
}

/// A text with no white space at either end is left as it is, and with white space around
/// it it is what is left.
pub proof fn text_between_white_space_is_kept(before: Seq<char>, text: Seq<char>, after: Seq<char>)
    requires
        forall|i: int| 0 <= i < before.len() ==> is_white_space(#[trigger] before[i]),
        forall|i: int| 0 <= i < after.len() ==> is_white_space(#[trigger] after[i]),
        text.len() > 0 ==> !is_white_space(text.first()) && !is_white_space(text.last()),
    ensures
        trimmed(text) == text,
        trimmed(before + text + after) == text,
{
    white_space_around_is_trimmed(before, text, after);
}

/// Base64 takes four symbols for three bytes, the last of which may be missing.
pub proof fn base64_takes_four_symbols_for_three_bytes(bytes: Seq<u8>)
    ensures
        base64_text(bytes).len() == (bytes.len() + 2) / 3 * 4,
    decreases bytes.len(),
{
    if bytes.len() > 3 {
        base64_takes_four_symbols_for_three_bytes(bytes.skip(3));
    }
}

/// Bytes whose number is a multiple of three are encoded by themselves, whatever follows.
pub proof fn base64_encodes_three_bytes_by_themselves(front: Seq<u8>, back: Seq<u8>)
    requires
        front.len() % 3 == 0,
    ensures
        base64_text(front + back) == base64_text(front) + base64_text(back),
    decreases front.len(),
{
    let whole = front + back;
    if front.len() == 0 {
        assert(whole =~= back);
        assert(base64_text(front) + base64_text(back) =~= base64_text(back));
    } else {
        let rest = front.skip(3);
        assert(whole.skip(3) =~= rest + back);
        base64_encodes_three_bytes_by_themselves(rest, back);
        assert(front[0] == whole[0] && front[1] == whole[1] && front[2] == whole[2]);
        if rest.len() == 0 {
            assert(base64_text(rest) =~= Seq::empty());
            if back.len() == 0 {
                assert(base64_text(back) =~= Seq::empty());
            }
        }
        assert(base64_text(whole) =~= base64_text(front) + base64_text(back));
    }
}

/// White space is what Unicode counts as such: the five controls from tab to carriage
/// return, the blank, and these other characters.
pub proof fn white_space_is_that_of_unicode(c: char)
    ensures
        is_white_space(c) <==> {
            ||| '\u{9}' <= c <= '\u{d}'
            ||| c == ' ' || c == '\u{85}' || c == '\u{a0}' || c == '\u{1680}'
            ||| '\u{2000}' <= c <= '\u{200a}'
            ||| c == '\u{2028}' || c == '\u{2029}' || c == '\u{202f}' || c == '\u{205f}'
            ||| c == '\u{3000}'
        },
{
}

/// The symbols are numbered in the order of the standard alphabet.
pub proof fn base64_symbols_are_those_of_the_alphabet(value: int)
    requires
        0 <= value < 64,
    ensures
        base64_symbol(value)
            == "ABCDEFGHIJKLMNOPQRSTUVWXYZabcdefghijklmnopqrstuvwxyz0123456789+/"@[value],
{
    reveal_strlit("ABCDEFGHIJKLMNOPQRSTUVWXYZabcdefghijklmnopqrstuvwxyz0123456789+/");
}

/// The numbers of four symbols, read as one in base 64, are the three bytes read as one in
/// base 256. Where bytes are missing they count as zero, and a symbol that only they would
/// fill is a `=`.
pub proof fn base64_symbols_hold_the_bits_of_the_bytes(a: u8, b: u8, c: u8) -> (numbers: (
    int,
    int,
    int,
    int,
))
    ensures
        0 <= numbers.0 < 64 && 0 <= numbers.1 < 64 && 0 <= numbers.2 < 64 && 0 <= numbers.3 < 64,
        ((numbers.0 * 64 + numbers.1) * 64 + numbers.2) * 64 + numbers.3 == (a * 256 + b) * 256 + c,
        base64_text(seq![a, b, c]) == seq![
            base64_symbol(numbers.0),
            base64_symbol(numbers.1),
            base64_symbol(numbers.2),
            base64_symbol(numbers.3),
        ],
        c == 0 ==> base64_text(seq![a, b]) == seq![
            base64_symbol(numbers.0),
            base64_symbol(numbers.1),
            base64_symbol(numbers.2),
            '=',
        ],
        b == 0 && c == 0 ==> base64_text(seq![a]) == seq![
            base64_symbol(numbers.0),
            base64_symbol(numbers.1),
            '=',
            '=',
        ],
{
    (a as int / 4, a as int % 4 * 16 + b as int / 16, b as int % 16 * 4 + c as int / 64, c as int
        % 64)
}

} // verus!
