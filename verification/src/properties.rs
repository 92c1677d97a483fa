//! Colors and custom properties.

use vstd::prelude::*;
use vstd::string::*;
use vstd::utf8::{decode_utf8, encode_utf8, is_ascii_chars, valid_utf8};

use crate::error::{Error, ErrorView};
use crate::parse::{
    bytes_equal_text, read_step, text_from_utf8, utf8_error_text, Parser, XmlAttribute, XmlEvent,
};
use crate::text::{
    bool_error_description, bool_error_message, bool_literal, float_error_description,
    float_error_message, int_error_message, is_float_literal, is_float_text, parse_bool,
    parse_decimal, parse_i32, parse_u32, str_equals, only_digits, digits_value,
    lemma_digits_parse_to_their_value, lemma_decimal_texts_are_floats,
};

verus! {

/// Represents a RGBA color with 8-bit depth on each channel.
#[derive(Debug, PartialEq, Eq, Copy, Clone, Structural)]
pub struct Color {
    pub alpha: u8,
    pub red: u8,
    pub green: u8,
    pub blue: u8,
}

/// The value of a hexadecimal digit, of either case.
pub open spec fn hex_digit_value(c: char) -> Option<u8> {
    if '0' <= c && c <= '9' {
        Some(((c as int) - ('0' as int)) as u8)
    } else if 'a' <= c && c <= 'f' {
        Some(((c as int) - ('a' as int) + 10) as u8)
    } else if 'A' <= c && c <= 'F' {
        Some(((c as int) - ('A' as int) + 10) as u8)
    } else {
        None
    }
}

/// The byte that two characters denote in base 16, as `u8::from_str_radix`
/// reads them: two hexadecimal digits, or a `+` followed by one.
pub open spec fn hex_byte(c0: char, c1: char) -> Option<u8> {
    if c0 == '+' {
        hex_digit_value(c1)
    } else {
        match (hex_digit_value(c0), hex_digit_value(c1)) {
            (Some(h), Some(l)) => Some((h * 16 + l) as u8),
            _ => None,
        }
    }
}

/// The color that a text denotes: after an optional leading `#`, six ASCII
/// characters `RRGGBB` (fully opaque) or eight `AARRGGBB`, each pair read by
/// [`hex_byte`].
pub open spec fn color_from_text(s: Seq<char>) -> Option<Color> {
    let t = if s.len() > 0 && s[0] == '#' {
        s.drop_first()
    } else {
        s
    };
    if !is_ascii_chars(t) {
        None
    } else if t.len() == 6 {
        match (hex_byte(t[0], t[1]), hex_byte(t[2], t[3]), hex_byte(t[4], t[5])) {
            (Some(red), Some(green), Some(blue)) => Some(Color { alpha: 0xFF, red, green, blue }),
            _ => None,
        }
    } else if t.len() == 8 {
        match (hex_byte(t[0], t[1]), hex_byte(t[2], t[3]), hex_byte(t[4], t[5]), hex_byte(t[6], t[7])) {
            (Some(alpha), Some(red), Some(green), Some(blue)) => Some(
                Color { alpha, red, green, blue },
            ),
            _ => None,
        }
    } else {
        None
    }
}

/// The upper-case hexadecimal digit of `d`, for `d < 16`.
pub open spec fn hex_char(d: int) -> char {
    if d < 10 {
        ((d + 48) as u8) as char
    } else {
        ((d + 55) as u8) as char
    }
}

/// The two upper-case hexadecimal digits of a byte.
pub open spec fn hex_text(b: u8) -> Seq<char> {
    seq![hex_char(b as int / 16), hex_char(b as int % 16)]
}

/// A color written as `#AARRGGBB`.
pub open spec fn argb_hex_text(c: Color) -> Seq<char> {
    seq!['#'] + hex_text(c.alpha) + hex_text(c.red) + hex_text(c.green) + hex_text(c.blue)
}

/// A color written as `#RRGGBB`, its alpha left out.
pub open spec fn rgb_hex_text(c: Color) -> Seq<char> {
    seq!['#'] + hex_text(c.red) + hex_text(c.green) + hex_text(c.blue)
}

proof fn lemma_hex_char_value(d: int)
    requires
        0 <= d < 16,
    ensures
        hex_digit_value(hex_char(d)) == Some(d as u8),
        hex_char(d) != '+',
        hex_char(d) != '#',
        '\0' <= hex_char(d) <= '\u{7f}',
{
}

proof fn lemma_hex_text_byte(b: u8)
    ensures
        hex_byte(hex_text(b)[0], hex_text(b)[1]) == Some(b),
        is_ascii_chars(hex_text(b)),
        hex_text(b)[0] != '#',
{
    lemma_hex_char_value(b as int / 16);
    lemma_hex_char_value(b as int % 16);
}

/// A color written as `#AARRGGBB` or `#RRGGBB` (upper-case digits), with or
/// without the `#`, reads back as that color, fully opaque in the six-digit
/// form.
pub proof fn lemma_color_text_roundtrip(c: Color)
    ensures
        color_from_text(argb_hex_text(c)) == Some(c),
        color_from_text(argb_hex_text(c).drop_first()) == Some(c),
        color_from_text(rgb_hex_text(c)) == Some(Color { alpha: 0xFF, ..c }),
        color_from_text(rgb_hex_text(c).drop_first()) == Some(Color { alpha: 0xFF, ..c }),
{
    lemma_hex_text_byte(c.alpha);
    lemma_hex_text_byte(c.red);
    lemma_hex_text_byte(c.green);
    lemma_hex_text_byte(c.blue);
    let t8 = hex_text(c.alpha) + hex_text(c.red) + hex_text(c.green) + hex_text(c.blue);
    let t6 = hex_text(c.red) + hex_text(c.green) + hex_text(c.blue);
    assert(argb_hex_text(c).drop_first() =~= t8);
    assert(rgb_hex_text(c).drop_first() =~= t6);
    assert(t8[0] == hex_text(c.alpha)[0]);
    assert(t6[0] == hex_text(c.red)[0]);
    assert(is_ascii_chars(t8)) by {
        assert forall|i: int| 0 <= i < t8.len() implies '\0' <= #[trigger] t8[i] <= '\u{7f}' by {
            if i < 2 {
                assert(t8[i] == hex_text(c.alpha)[i]);
            } else if i < 4 {
                assert(t8[i] == hex_text(c.red)[i - 2]);
            } else if i < 6 {
                assert(t8[i] == hex_text(c.green)[i - 4]);
            } else {
                assert(t8[i] == hex_text(c.blue)[i - 6]);
            }
        }
    }
    assert(is_ascii_chars(t6)) by {
        assert forall|i: int| 0 <= i < t6.len() implies '\0' <= #[trigger] t6[i] <= '\u{7f}' by {
            if i < 2 {
                assert(t6[i] == hex_text(c.red)[i]);
            } else if i < 4 {
                assert(t6[i] == hex_text(c.green)[i - 2]);
            } else {
                assert(t6[i] == hex_text(c.blue)[i - 4]);
            }
        }
    }
}

/// The value of each hexadecimal digit: `0` to `9` count from zero, `a` to
/// `f` and `A` to `F` from ten; no other character is a digit.
pub proof fn lemma_hex_digit_values(c: char)
    ensures
        '0' <= c <= '9' ==> hex_digit_value(c) == Some((c as u32 - 48) as u8),
        'a' <= c <= 'f' ==> hex_digit_value(c) == Some((c as u32 - 87) as u8),
        'A' <= c <= 'F' ==> hex_digit_value(c) == Some((c as u32 - 55) as u8),
        !('0' <= c <= '9' || 'a' <= c <= 'f' || 'A' <= c <= 'F') ==> hex_digit_value(c) is None,
{
}

/// The lower-case hexadecimal digit of `d`, for `d < 16`.
pub open spec fn hex_char_lower(d: int) -> char {
    if d < 10 {
        ((d + 48) as u8) as char
    } else {
        ((d + 87) as u8) as char
    }
}

/// The two lower-case hexadecimal digits of a byte.
pub open spec fn hex_text_lower(b: u8) -> Seq<char> {
    seq![hex_char_lower(b as int / 16), hex_char_lower(b as int % 16)]
}

proof fn lemma_hex_text_lower_byte(b: u8)
    ensures
        hex_byte(hex_text_lower(b)[0], hex_text_lower(b)[1]) == Some(b),
        is_ascii_chars(hex_text_lower(b)),
        hex_text_lower(b)[0] != '#',
{
    let h = b as int / 16;
    let l = b as int % 16;
    assert(hex_digit_value(hex_char_lower(h)) == Some(h as u8));
    assert(hex_digit_value(hex_char_lower(l)) == Some(l as u8));
}

/// A color written with lower-case digits as `#aarrggbb` or `#rrggbb`, with
/// or without the `#`, reads back as that color, fully opaque in the
/// six-digit form.
pub proof fn lemma_color_lower_text_roundtrip(c: Color)
    ensures
        color_from_text(
            seq!['#'] + hex_text_lower(c.alpha) + hex_text_lower(c.red) + hex_text_lower(c.green)
                + hex_text_lower(c.blue),
        ) == Some(c),
        color_from_text(
            hex_text_lower(c.alpha) + hex_text_lower(c.red) + hex_text_lower(c.green)
                + hex_text_lower(c.blue),
        ) == Some(c),
        color_from_text(
            seq!['#'] + hex_text_lower(c.red) + hex_text_lower(c.green) + hex_text_lower(c.blue),
        ) == Some(Color { alpha: 0xFF, ..c }),
        color_from_text(hex_text_lower(c.red) + hex_text_lower(c.green) + hex_text_lower(c.blue))
            == Some(Color { alpha: 0xFF, ..c }),
{
    lemma_hex_text_lower_byte(c.alpha);
    lemma_hex_text_lower_byte(c.red);
    lemma_hex_text_lower_byte(c.green);
    lemma_hex_text_lower_byte(c.blue);
    let t8 = hex_text_lower(c.alpha) + hex_text_lower(c.red) + hex_text_lower(c.green)
        + hex_text_lower(c.blue);
    let t6 = hex_text_lower(c.red) + hex_text_lower(c.green) + hex_text_lower(c.blue);
    assert((seq!['#'] + t8).drop_first() =~= t8);
    assert((seq!['#'] + t6).drop_first() =~= t6);
    assert(seq!['#'] + hex_text_lower(c.alpha) + hex_text_lower(c.red) + hex_text_lower(c.green)
        + hex_text_lower(c.blue) =~= seq!['#'] + t8);
    assert(seq!['#'] + hex_text_lower(c.red) + hex_text_lower(c.green) + hex_text_lower(c.blue)
        =~= seq!['#'] + t6);
    assert(t8[0] == hex_text_lower(c.alpha)[0]);
    assert(t6[0] == hex_text_lower(c.red)[0]);
    assert(is_ascii_chars(t8)) by {
        assert forall|i: int| 0 <= i < t8.len() implies '\0' <= #[trigger] t8[i] <= '\u{7f}' by {
            if i < 2 {
                assert(t8[i] == hex_text_lower(c.alpha)[i]);
            } else if i < 4 {
                assert(t8[i] == hex_text_lower(c.red)[i - 2]);
            } else if i < 6 {
                assert(t8[i] == hex_text_lower(c.green)[i - 4]);
            } else {
                assert(t8[i] == hex_text_lower(c.blue)[i - 6]);
            }
        }
    }
    assert(is_ascii_chars(t6)) by {
        assert forall|i: int| 0 <= i < t6.len() implies '\0' <= #[trigger] t6[i] <= '\u{7f}' by {
            if i < 2 {
                assert(t6[i] == hex_text_lower(c.red)[i]);
            } else if i < 4 {
                assert(t6[i] == hex_text_lower(c.green)[i - 2]);
            } else {
                assert(t6[i] == hex_text_lower(c.blue)[i - 4]);
            }
        }
    }
    assert(t8[2] == hex_text_lower(c.red)[0]);
    assert(t8[3] == hex_text_lower(c.red)[1]);
    assert(t8[4] == hex_text_lower(c.green)[0]);
    assert(t8[5] == hex_text_lower(c.green)[1]);
    assert(t8[6] == hex_text_lower(c.blue)[0]);
    assert(t8[7] == hex_text_lower(c.blue)[1]);
    assert(t6[2] == hex_text_lower(c.green)[0]);
    assert(t6[3] == hex_text_lower(c.green)[1]);
    assert(t6[4] == hex_text_lower(c.blue)[0]);
    assert(t6[5] == hex_text_lower(c.blue)[1]);
}

fn hex_digit(c: char) -> (r: Option<u8>)
    ensures
        r == hex_digit_value(c),
{
    if '0' <= c && c <= '9' {
        Some((c as u32 - '0' as u32) as u8)
    } else if 'a' <= c && c <= 'f' {
        Some((c as u32 - 'a' as u32 + 10) as u8)
    } else if 'A' <= c && c <= 'F' {
        Some((c as u32 - 'A' as u32 + 10) as u8)
    } else {
        None
    }
}

fn hex_pair(c0: char, c1: char) -> (r: Option<u8>)
    ensures
        r == hex_byte(c0, c1),
{
    if c0 == '+' {
        hex_digit(c1)
    } else {
        match (hex_digit(c0), hex_digit(c1)) {
            (Some(h), Some(l)) => Some(h * 16 + l),
            _ => None,
        }
    }
}

impl Color {
    /// Reads a color written as `#RRGGBB`, `RRGGBB`, `#AARRGGBB` or
    /// `AARRGGBB`.
    pub fn parse_text(s: &str) -> (r: Result<Color, ()>)
        ensures
            match color_from_text(s@) {
                Some(c) => r == Ok::<Color, ()>(c),
                None => r is Err,
            },
    {
        let n = s.unicode_len();
        let t = if n > 0 && s.get_char(0) == '#' {
            s.substring_char(1, n)
        } else {
            s
        };
        assert(t@ == (if s@.len() > 0 && s@[0] == '#' {
            s@.drop_first()
        } else {
            s@
        }));
        if !t.is_ascii() {
            return Err(());
        }
        let m = t.unicode_len();
        if m == 6 {
            match (
                hex_pair(t.get_char(0), t.get_char(1)),
                hex_pair(t.get_char(2), t.get_char(3)),
                hex_pair(t.get_char(4), t.get_char(5)),
            ) {
                (Some(red), Some(green), Some(blue)) => Ok(Color { alpha: 0xFF, red, green, blue }),
                _ => Err(()),
            }
        } else if m == 8 {
            match (
                hex_pair(t.get_char(0), t.get_char(1)),
                hex_pair(t.get_char(2), t.get_char(3)),
                hex_pair(t.get_char(4), t.get_char(5)),
                hex_pair(t.get_char(6), t.get_char(7)),
            ) {
                (Some(alpha), Some(red), Some(green), Some(blue)) => Ok(
                    Color { alpha, red, green, blue },
                ),
                _ => Err(()),
            }
        } else {
            Err(())
        }
    }
}

impl core::str::FromStr for Color {
    type Err = ();

    fn from_str(s: &str) -> (r: Result<Color, ()>)
        ensures
            match color_from_text(s@) {
                Some(c) => r == Ok::<Color, ()>(c),
                None => r is Err,
            },
    {
        Color::parse_text(s)
    }
}

/// Represents a custom property's value.
#[derive(Debug, PartialEq, Clone)]
pub enum PropertyValue {
    /// A boolean value. Corresponds to the `bool` property type.
    BoolValue(bool),
    /// A floating point value. Corresponds to the `float` property type.
    /// Holds the text of the number, which conforms to the grammar of
    /// `f32::from_str`.
    FloatValue(String),
    /// A signed integer value. Corresponds to the `int` property type.
    IntValue(i32),
    /// A color value. Corresponds to the `color` property type.
    ColorValue(Color),
    /// A string value. Corresponds to the `string` property type.
    StringValue(String),
    /// A filepath value. Corresponds to the `file` property type.
    /// Holds the path relative to the map or tileset.
    FileValue(String),
    /// An object ID value. Corresponds to the `object` property type.
    /// Holds the id of a referenced object, or 0 if unset.
    ObjectValue(u32),
    /// A class value. Corresponds to the `class` property type.
    /// Holds the type name and a set of properties.
    ClassValue {
        /// The type name.
        property_type: String,
        /// A set of properties.
        properties: Properties,
    },
}

/// A property value other than a class, its texts taken as character
/// sequences.
pub enum PlainValue {
    Bool(bool),
    Float(Seq<char>),
    Int(i32),
    Color(Color),
    Str(Seq<char>),
    File(Seq<char>),
    Object(u32),
}

impl PropertyValue {
    /// The value as a [`PlainValue`], or `None` for a class value.
    pub open spec fn plain(self) -> Option<PlainValue> {
        match self {
            PropertyValue::BoolValue(b) => Some(PlainValue::Bool(b)),
            PropertyValue::FloatValue(s) => Some(PlainValue::Float(s@)),
            PropertyValue::IntValue(i) => Some(PlainValue::Int(i)),
            PropertyValue::ColorValue(c) => Some(PlainValue::Color(c)),
            PropertyValue::StringValue(s) => Some(PlainValue::Str(s@)),
            PropertyValue::FileValue(s) => Some(PlainValue::File(s@)),
            PropertyValue::ObjectValue(o) => Some(PlainValue::Object(o)),
            PropertyValue::ClassValue { .. } => None,
        }
    }
}

/// The value that a property declared with type `t` and written as `v`
/// has, or why it has none: the text must fit the type, and the type must be
/// one of `bool`, `float`, `int`, `color` (with a value longer than one
/// byte), `string`, `object` or `file`.
pub open spec fn property_value_of(t: Seq<char>, v: Seq<char>) -> Result<PlainValue, ErrorView> {
    if t == "bool"@ {
        match bool_literal(v) {
            Some(b) => Ok(PlainValue::Bool(b)),
            None => Err(ErrorView::InvalidPropertyValue { description: bool_error_message() }),
        }
    } else if t == "float"@ {
        if is_float_literal(v) {
            Ok(PlainValue::Float(v))
        } else {
            Err(ErrorView::InvalidPropertyValue { description: float_error_message(v) })
        }
    } else if t == "int"@ {
        match parse_decimal(v, true, i32::MIN as int, i32::MAX as int) {
            Ok(i) => Ok(PlainValue::Int(i as i32)),
            Err(k) => Err(ErrorView::InvalidPropertyValue { description: int_error_message(k) }),
        }
    } else if t == "color"@ && encode_utf8(v).len() > 1 {
        match color_from_text(v) {
            Some(c) => Ok(PlainValue::Color(c)),
            None => Err(
                ErrorView::InvalidPropertyValue { description: "Couldn't parse color"@ },
            ),
        }
    } else if t == "string"@ {
        Ok(PlainValue::Str(v))
    } else if t == "object"@ {
        match parse_decimal(v, false, 0, u32::MAX as int) {
            Ok(o) => Ok(PlainValue::Object(o as u32)),
            Err(k) => Err(ErrorView::InvalidPropertyValue { description: int_error_message(k) }),
        }
    } else if t == "file"@ {
        Ok(PlainValue::File(v))
    } else {
        Err(ErrorView::UnknownPropertyType { property_type: t })
    }
}

/// What each declared type makes of a property's text: `string` and `file`
/// keep the text as it is; `bool` takes exactly `true` or `false`; `int` and
/// `object` take decimal digits as the number they write (when it fits);
/// `float` takes decimal digits; `color` with a text of at most one byte,
/// and every type not named here, is an unknown type.
pub proof fn lemma_property_types(t: Seq<char>, v: Seq<char>)
    ensures
        property_value_of("string"@, v) == Ok::<PlainValue, ErrorView>(PlainValue::Str(v)),
        property_value_of("file"@, v) == Ok::<PlainValue, ErrorView>(PlainValue::File(v)),
        property_value_of("bool"@, "true"@) == Ok::<PlainValue, ErrorView>(PlainValue::Bool(true)),
        property_value_of("bool"@, "false"@) == Ok::<PlainValue, ErrorView>(
            PlainValue::Bool(false),
        ),
        v != "true"@ && v != "false"@ ==> property_value_of("bool"@, v) is Err,
        v.len() > 0 && only_digits(v) && digits_value(v) <= i32::MAX ==> property_value_of(
            "int"@,
            v,
        ) == Ok::<PlainValue, ErrorView>(PlainValue::Int(#[verifier::truncate] (digits_value(v) as i32))),
        v.len() > 0 && only_digits(v) && digits_value(v) <= u32::MAX ==> property_value_of(
            "object"@,
            v,
        ) == Ok::<PlainValue, ErrorView>(PlainValue::Object(#[verifier::truncate] (digits_value(v) as u32))),
        v.len() > 0 && only_digits(v) ==> property_value_of("float"@, v) == Ok::<
            PlainValue,
            ErrorView,
        >(PlainValue::Float(v)),
        encode_utf8(v).len() <= 1 ==> property_value_of("color"@, v) == Err::<PlainValue, ErrorView>(
            ErrorView::UnknownPropertyType { property_type: "color"@ },
        ),
        t != "bool"@ && t != "float"@ && t != "int"@ && t != "color"@ && t != "string"@ && t
            != "object"@ && t != "file"@ ==> property_value_of(t, v) == Err::<PlainValue, ErrorView>(
            ErrorView::UnknownPropertyType { property_type: t },
        ),
{
    reveal_strlit("bool");
    reveal_strlit("float");
    reveal_strlit("int");
    reveal_strlit("color");
    reveal_strlit("string");
    reveal_strlit("object");
    reveal_strlit("file");
    reveal_strlit("true");
    reveal_strlit("false");
    assert("string"@.len() == 6 && "file"@.len() == 4 && "bool"@.len() == 4 && "int"@.len() == 3);
    assert("float"@.len() == 5 && "color"@.len() == 5 && "object"@.len() == 6);
    assert("string"@ != "object"@) by {
        assert("string"@[0] != "object"@[0]);
    }
    assert("file"@ != "bool"@) by {
        assert("file"@[0] != "bool"@[0]);
    }
    assert("float"@ != "color"@) by {
        assert("float"@[0] != "color"@[0]);
    }
    if v.len() > 0 && only_digits(v) {
        lemma_digits_parse_to_their_value(v, true, i32::MIN as int, i32::MAX as int);
        lemma_digits_parse_to_their_value(v, false, 0, u32::MAX as int);
        lemma_decimal_texts_are_floats(v, seq![]);
    }
}

impl PropertyValue {
    /// Checks the property type against the value, and builds the value.
    pub fn new(property_type: String, value: String) -> (r: Result<PropertyValue, Error>)
        ensures
            match property_value_of(property_type@, value@) {
                Ok(p) => r matches Ok(v) && v.plain() == Some(p),
                Err(e) => r matches Err(err) && err@ == e,
            },
    {
        let t = property_type.as_str();
        let v = value.as_str();
        if str_equals(t, "bool") {
            match parse_bool(v) {
                Some(b) => Ok(PropertyValue::BoolValue(b)),
                None => Err(Error::InvalidPropertyValue { description: bool_error_description() }),
            }
        } else if str_equals(t, "float") {
            if is_float_text(v) {
                Ok(PropertyValue::FloatValue(value))
            } else {
                Err(Error::InvalidPropertyValue { description: float_error_description(v) })
            }
        } else if str_equals(t, "int") {
            proof {
                crate::text::lemma_parse_decimal_in_range(v@, true, i32::MIN as int, i32::MAX as int);
            }
            match parse_i32(v) {
                Ok(i) => Ok(PropertyValue::IntValue(i)),
                Err(k) => Err(Error::InvalidPropertyValue { description: k.message() }),
            }
        } else if str_equals(t, "color") && v.as_bytes().len() > 1 {
            match Color::parse_text(v) {
                Ok(c) => Ok(PropertyValue::ColorValue(c)),
                Err(_) => Err(
                    Error::InvalidPropertyValue {
                        description: String::from_str("Couldn't parse color"),
                    },
                ),
            }
        } else if str_equals(t, "string") {
            Ok(PropertyValue::StringValue(value))
        } else if str_equals(t, "object") {
            proof {
                crate::text::lemma_parse_decimal_in_range(v@, false, 0, u32::MAX as int);
            }
            match parse_u32(v) {
                Ok(o) => Ok(PropertyValue::ObjectValue(o)),
                Err(k) => Err(Error::InvalidPropertyValue { description: k.message() }),
            }
        } else if str_equals(t, "file") {
            Ok(PropertyValue::FileValue(value))
        } else {
            Err(Error::UnknownPropertyType { property_type })
        }
    }
}

/// A custom property container: property names mapped to their values.
#[verifier::external_body]
#[derive(Debug, PartialEq)]
pub struct Properties {
    map: hashbrown::HashMap<String, PropertyValue>,
}

/// The entries of a property container, each name taken as a character
/// sequence.
pub uninterp spec fn property_entries(p: Properties) -> Map<Seq<char>, PropertyValue>;

/// Makes an empty container with `hashbrown::HashMap::new`, which holds no
/// entries.
#[verifier::external_body]
fn properties_new() -> (r: Properties)
    ensures
        property_entries(r).dom().is_empty(),
{
    Properties { map: hashbrown::HashMap::new() }
}

/// Calls `hashbrown::HashMap::insert`, which maps `k` to `v`, replacing any
/// value that `k` had, and leaves every other entry as it was.
#[verifier::external_body]
fn properties_insert(p: &mut Properties, k: String, v: PropertyValue)
    ensures
        final(p).entries() == old(p).entries().insert(k@, v),
{
    p.map.insert(k, v);
}

/// Calls `hashbrown::HashMap::get`, which returns the value mapped to `k`, if
/// there is one.
#[verifier::external_body]
fn properties_get<'a>(p: &'a Properties, k: &str) -> (r: Option<&'a PropertyValue>)
    ensures
        match r {
            Some(v) => property_entries(*p).contains_key(k@) && *v == property_entries(*p)[k@],
            None => !property_entries(*p).contains_key(k@),
        },
{
    p.map.get(k)
}

/// Calls `hashbrown::HashMap::len`, the number of entries.
#[verifier::external_body]
fn properties_len(p: &Properties) -> (r: usize)
    ensures
        r as nat == property_entries(*p).dom().len(),
{
    p.map.len()
}

/// Calls `hashbrown::HashMap::clone`, which clones every key and value:
/// the copy has the same property names.
#[verifier::external_body]
fn properties_clone(p: &Properties) -> (r: Properties)
    ensures
        property_entries(r).dom() == property_entries(*p).dom(),
{
    Properties { map: p.map.clone() }
}

impl Clone for Properties {
    /// A copy with the same property names, each value cloned.
    fn clone(&self) -> (r: Properties)
        ensures
            r.entries().dom() == self.entries().dom(),
    {
        properties_clone(self)
    }
}

impl Default for Properties {
    /// An empty container.
    fn default() -> (r: Properties)
        ensures
            r.entries() == Map::<Seq<char>, PropertyValue>::empty(),
    {
        Properties::new()
    }
}

impl Properties {
    /// The entries of this container.
    pub open spec fn entries(self) -> Map<Seq<char>, PropertyValue> {
        property_entries(self)
    }

    /// An empty container.
    pub fn new() -> (r: Properties)
        ensures
            property_entries(r) == Map::<Seq<char>, PropertyValue>::empty(),
    {
        properties_new()
    }

    /// Sets the property named `name` to `value`.
    pub fn insert(&mut self, name: String, value: PropertyValue)
        ensures
            property_entries(*final(self)) == property_entries(*old(self)).insert(name@, value),
    {
        properties_insert(self, name, value)
    }

    /// The value of the property named `name`, if there is one.
    pub fn get(&self, name: &str) -> (r: Option<&PropertyValue>)
        ensures
            match r {
                Some(v) => property_entries(*self).contains_key(name@) && *v == property_entries(
                    *self,
                )[name@],
                None => !property_entries(*self).contains_key(name@),
            },
    {
        properties_get(self, name)
    }

    /// The number of properties.
    pub fn len(&self) -> (r: usize)
        ensures
            r as nat == property_entries(*self).dom().len(),
    {
        properties_len(self)
    }
}

/// How a property read from a document is described: a plain value, or a
/// class with its type name and the properties read for it, in document
/// order.
pub enum PropertySpec {
    Plain(PlainValue),
    Class { property_type: Seq<char>, entries: Seq<(Seq<char>, PropertySpec)> },
}

/// `entries[i]` is the last of `entries` with its name.
pub open spec fn is_last_with_name(entries: Seq<(Seq<char>, PropertySpec)>, i: int) -> bool {
    forall|j: int| i < j < entries.len() ==> entries[j].0 != entries[i].0
}

/// `v` is the value that `s` describes.
pub open spec fn conforms(v: PropertyValue, s: PropertySpec) -> bool
    decreases s,
{
    match s {
        PropertySpec::Plain(p) => v.plain() == Some(p),
        PropertySpec::Class { property_type, entries } => match v {
            PropertyValue::ClassValue { property_type: t, properties } => t@ == property_type
                && holds_entries(properties, entries),
            _ => false,
        },
    }
}

/// `p` holds what inserting `entries` one after the other into an empty
/// container leaves: exactly their names, each with the value that the
/// last entry of that name describes.
pub open spec fn holds_entries(p: Properties, entries: Seq<(Seq<char>, PropertySpec)>) -> bool
    decreases entries,
{
    &&& forall|k: Seq<char>|
        p.entries().contains_key(k) <==> exists|i: int| 0 <= i < entries.len() && #[trigger] entries[i].0 == k
    &&& forall|i: int|
        0 <= i < entries.len() && is_last_with_name(entries, i) ==> conforms(
            p.entries()[#[trigger] entries[i].0],
            entries[i].1,
        )
}

/// What the attributes of a `<property>` element say, each value decoded
/// from UTF-8.
pub struct PropertyAttributes {
    pub type_attr: Option<Seq<char>>,
    pub value_attr: Option<Seq<char>>,
    pub name_attr: Option<Seq<char>>,
    pub propertytype_attr: Option<Seq<char>>,
}

/// The attributes `type`, `value`, `name` and `propertytype` among `attrs`,
/// a later one of a name replacing an earlier one; reading fails at the
/// first attribute, in order, whose value is no valid UTF-8.
pub open spec fn property_attributes(attrs: Seq<XmlAttribute>) -> Result<
    PropertyAttributes,
    ErrorView,
>
    decreases attrs.len(),
{
    if attrs.len() == 0 {
        Ok(
            PropertyAttributes {
                type_attr: None,
                value_attr: None,
                name_attr: None,
                propertytype_attr: None,
            },
        )
    } else {
        match property_attributes(attrs.drop_last()) {
            Err(e) => Err(e),
            Ok(a) => {
                let last = attrs.last();
                if !valid_utf8(last.value@) {
                    Err(ErrorView::XmlDecodingError(utf8_error_text(last.value@)))
                } else {
                    let v = decode_utf8(last.value@);
                    if last.key@ == encode_utf8("type"@) {
                        Ok(
                            PropertyAttributes {
                                type_attr: Some(v),
                                value_attr: a.value_attr,
                                name_attr: a.name_attr,
                                propertytype_attr: a.propertytype_attr,
                            },
                        )
                    } else if last.key@ == encode_utf8("value"@) {
                        Ok(
                            PropertyAttributes {
                                type_attr: a.type_attr,
                                value_attr: Some(v),
                                name_attr: a.name_attr,
                                propertytype_attr: a.propertytype_attr,
                            },
                        )
                    } else if last.key@ == encode_utf8("propertytype"@) {
                        Ok(
                            PropertyAttributes {
                                type_attr: a.type_attr,
                                value_attr: a.value_attr,
                                name_attr: a.name_attr,
                                propertytype_attr: Some(v),
                            },
                        )
                    } else if last.key@ == encode_utf8("name"@) {
                        Ok(
                            PropertyAttributes {
                                type_attr: a.type_attr,
                                value_attr: a.value_attr,
                                name_attr: Some(v),
                                propertytype_attr: a.propertytype_attr,
                            },
                        )
                    } else {
                        Ok(a)
                    }
                }
            },
        }
    }
}

/// Text made only of XML whitespace: space, tab, carriage return, line feed.
pub open spec fn all_xml_whitespace(b: Seq<u8>) -> bool {
    forall|i: int| 0 <= i < b.len() ==> (b[i] == 0x20u8 || b[i] == 0x09u8 || b[i] == 0x0du8 || b[i] == 0x0au8)
}

/// Reading on from `pos` past whitespace text and comments: whether the next
/// other event is the start tag `<properties>`, and where the reader then
/// stands. A reader error ends the search with `false`.
pub open spec fn properties_tag_scan(events: Seq<XmlEvent>, pos: int, empty: bool) -> (bool, int, bool)
    decreases events.len() - pos,
{
    let (r, p2, e2) = read_step(events, pos, empty);
    match r {
        Err(_) => (false, p2, e2),
        Ok(XmlEvent::Start { name, .. }) => (name@ == encode_utf8("properties"@), p2, e2),
        Ok(XmlEvent::Text { content }) => if all_xml_whitespace(content@) && pos < p2 <= events.len() {
            properties_tag_scan(events, p2, e2)
        } else {
            (false, p2, e2)
        },
        Ok(XmlEvent::Comment) => if pos < p2 <= events.len() {
            properties_tag_scan(events, p2, e2)
        } else {
            (false, p2, e2)
        },
        Ok(_) => (false, p2, e2),
    }
}

/// Whether a `<properties>` element follows, consuming whitespace and
/// comments; never after an empty element tag.
pub open spec fn has_properties_next(events: Seq<XmlEvent>, pos: int, empty: bool) -> (bool, int, bool) {
    if empty {
        (false, pos, empty)
    } else {
        properties_tag_scan(events, pos, empty)
    }
}

pub open spec fn premature_end_message() -> Seq<char> {
    "Document ended before we expected."@
}

pub open spec fn missing_value_message(k: Seq<char>) -> Seq<char> {
    "property `"@ + k + "` is missing a value"@
}

/// Reading the contents of a `<properties>` element (its start tag just
/// read, with flag `empty`): the properties in document order, or why
/// reading failed, and where the reader then stands.
pub open spec fn parse_properties_spec(events: Seq<XmlEvent>, pos: int, empty: bool) -> (
    Result<Seq<(Seq<char>, PropertySpec)>, ErrorView>,
    int,
    bool,
)
    decreases events.len() - pos, 2int,
{
    if empty {
        (Ok(seq![]), pos, empty)
    } else {
        properties_loop(events, pos, empty, seq![])
    }
}

/// The loop over the children of `<properties>`, having read `acc` so far.
pub open spec fn properties_loop(
    events: Seq<XmlEvent>,
    pos: int,
    empty: bool,
    acc: Seq<(Seq<char>, PropertySpec)>,
) -> (Result<Seq<(Seq<char>, PropertySpec)>, ErrorView>, int, bool)
    decreases events.len() - pos, 1int,
{
    let (r, p2, e2) = read_step(events, pos, empty);
    if !(pos < p2 <= events.len()) {
        match r {
            Err(e) => (Err(e), p2, e2),
            Ok(_) => (Err(ErrorView::PrematureEnd(premature_end_message())), p2, e2),
        }
    } else {
        match r {
            Err(e) => (Err(e), p2, e2),
            Ok(ev) => {
                let element = match ev {
                    XmlEvent::Start { name, attributes } => Some((name, attributes)),
                    XmlEvent::Empty { name, attributes } => Some((name, attributes)),
                    _ => None,
                };
                match element {
                    Some((name, attributes)) => if name@ == encode_utf8("property"@) {
                        match attributes {
                            Err(m) => (Err(ErrorView::XmlDecodingError(m@)), p2, e2),
                            Ok(attrs) => {
                                let (res, p3, e3) = property_entry_spec(events, p2, e2, attrs@);
                                match res {
                                    Err(e) => (Err(e), p3, e3),
                                    Ok(entry) => if p2 <= p3 <= events.len() {
                                        properties_loop(events, p3, e3, acc.push(entry))
                                    } else {
                                        (Ok(acc), p3, e3)
                                    },
                                }
                            },
                        }
                    } else {
                        properties_loop(events, p2, e2, acc)
                    },
                    None => match ev {
                        XmlEvent::End { name } => if name@ == encode_utf8("properties"@) {
                            (Ok(acc), p2, e2)
                        } else {
                            properties_loop(events, p2, e2, acc)
                        },
                        XmlEvent::Eof => (
                            Err(ErrorView::PrematureEnd(premature_end_message())),
                            p2,
                            e2,
                        ),
                        _ => properties_loop(events, p2, e2, acc),
                    },
                }
            },
        }
    }
}

/// Reading one `<property>` element (its start tag just read, with flag
/// `empty`, its attributes `attrs`): its name and value, or why reading
/// failed, and where the reader then stands. A property without `type` is a
/// string; a class reads the `<properties>` element that may follow; any
/// other property without `value` takes the text that follows the tag.
pub open spec fn property_entry_spec(
    events: Seq<XmlEvent>,
    pos: int,
    empty: bool,
    attrs: Seq<XmlAttribute>,
) -> (Result<(Seq<char>, PropertySpec), ErrorView>, int, bool)
    decreases events.len() - pos, 0int,
{
    match property_attributes(attrs) {
        Err(e) => (Err(e), pos, empty),
        Ok(a) => match a.name_attr {
            None => (Err(ErrorView::MalformedAttributes("Missing attribute: name"@)), pos, empty),
            Some(k) => {
                let t = match a.type_attr {
                    Some(t) => t,
                    None => "string"@,
                };
                if t == "class"@ {
                    let pt = match a.propertytype_attr {
                        Some(x) => x,
                        None => Seq::<char>::empty(),
                    };
                    let (has, p2, e2) = has_properties_next(events, pos, empty);
                    if has && pos < p2 <= events.len() {
                        let (res, p3, e3) = parse_properties_spec(events, p2, e2);
                        match res {
                            Err(e) => (Err(e), p3, e3),
                            Ok(entries) => (
                                Ok((k, PropertySpec::Class { property_type: pt, entries })),
                                p3,
                                e3,
                            ),
                        }
                    } else {
                        (
                            Ok((k, PropertySpec::Class { property_type: pt, entries: seq![] })),
                            p2,
                            e2,
                        )
                    }
                } else {
                    let (val, p2, e2): (Result<Seq<char>, ErrorView>, int, bool) = match a.value_attr {
                        Some(v) => (Ok(v), pos, empty),
                        None => {
                            let (r, p2, e2) = read_step(events, pos, empty);
                            (
                                match r {
                                    Ok(XmlEvent::Text { content }) => if valid_utf8(content@) {
                                        Ok(decode_utf8(content@))
                                    } else {
                                        Err(ErrorView::XmlDecodingError(utf8_error_text(content@)))
                                    },
                                    Err(e) => Err(e),
                                    Ok(_) => Err(
                                        ErrorView::MalformedAttributes(missing_value_message(k)),
                                    ),
                                },
                                p2,
                                e2,
                            )
                        },
                    };
                    match val {
                        Err(e) => (Err(e), p2, e2),
                        Ok(v) => match property_value_of(t, v) {
                            Err(e) => (Err(e), p2, e2),
                            Ok(pv) => (Ok((k, PropertySpec::Plain(pv))), p2, e2),
                        },
                    }
                }
            },
        },
    }
}

/// How a `<property>` element with a name is read: only a property whose
/// type is `class` becomes a class, named by its `propertytype` (empty when
/// absent); any other property with a `value` attribute is the plain value
/// that its type (`string` when absent) and that value give, whatever its
/// `propertytype`, and nothing more is read for it.
pub proof fn lemma_property_entry_kinds(
    events: Seq<XmlEvent>,
    pos: int,
    empty: bool,
    attrs: Seq<XmlAttribute>,
)
    requires
        property_attributes(attrs) is Ok,
        property_attributes(attrs)->Ok_0.name_attr is Some,
    ensures
        ({
            let a = property_attributes(attrs)->Ok_0;
            let k = a.name_attr->Some_0;
            let t = match a.type_attr {
                Some(t) => t,
                None => "string"@,
            };
            let (res, p, e) = property_entry_spec(events, pos, empty, attrs);
            &&& (match res {
                Ok((k2, PropertySpec::Class { property_type, .. })) => k2 == k && t == "class"@
                    && property_type == match a.propertytype_attr {
                    Some(x) => x,
                    None => Seq::<char>::empty(),
                },
                Ok((k2, PropertySpec::Plain(_))) => k2 == k && t != "class"@,
                Err(_) => true,
            })
            &&& (t != "class"@ && a.value_attr is Some) ==> {
                &&& p == pos
                &&& e == empty
                &&& res == match property_value_of(t, a.value_attr->Some_0) {
                    Ok(pv) => Ok((k, PropertySpec::Plain(pv))),
                    Err(er) => Err(er),
                }
            }
        }),
{
}

/// An event that reading the children of a `<properties>` element passes
/// over: any tag other than `property`, any end tag other than
/// `</properties>`, text, comments and other markup.
pub open spec fn passed_over_in_properties(e: XmlEvent) -> bool {
    match e {
        XmlEvent::Start { name, .. } => name@ != encode_utf8("property"@),
        XmlEvent::Empty { name, .. } => name@ != encode_utf8("property"@),
        XmlEvent::End { name } => name@ != encode_utf8("properties"@),
        XmlEvent::Eof => false,
        XmlEvent::Error { .. } => false,
        _ => true,
    }
}

/// Reading a `<properties>` element passes over everything but `<property>`
/// tags and its own end: an empty `<properties/>` holds nothing; the end tag
/// `</properties>` gives what was read so far; the end of the document (or
/// of the events) is premature; a reader error is that error.
pub proof fn lemma_properties_loop_first_stop(
    events: Seq<XmlEvent>,
    pos: int,
    empty: bool,
    acc: Seq<(Seq<char>, PropertySpec)>,
    i: int,
)
    requires
        0 <= pos <= i <= events.len(),
        forall|j: int| pos <= j < i ==> passed_over_in_properties(#[trigger] events[j]),
    ensures
        parse_properties_spec(events, pos, true) == (
            Ok::<Seq<(Seq<char>, PropertySpec)>, ErrorView>(seq![]),
            pos,
            true,
        ),
        i == events.len() ==> properties_loop(events, pos, empty, acc).0 == Err::<
            Seq<(Seq<char>, PropertySpec)>,
            ErrorView,
        >(ErrorView::PrematureEnd(premature_end_message())),
        i < events.len() ==> match events[i] {
            XmlEvent::End { name } => name@ == encode_utf8("properties"@) ==> properties_loop(
                events,
                pos,
                empty,
                acc,
            ) == (Ok::<Seq<(Seq<char>, PropertySpec)>, ErrorView>(acc), i + 1, false),
            XmlEvent::Eof => properties_loop(events, pos, empty, acc).0 == Err::<
                Seq<(Seq<char>, PropertySpec)>,
                ErrorView,
            >(ErrorView::PrematureEnd(premature_end_message())),
            XmlEvent::Error { message } => properties_loop(events, pos, empty, acc).0 == Err::<
                Seq<(Seq<char>, PropertySpec)>,
                ErrorView,
            >(ErrorView::XmlDecodingError(message@)),
            _ => true,
        },
    decreases i - pos,
{
    if pos < i {
        assert(passed_over_in_properties(events[pos]));
        let (r, p2, e2) = read_step(events, pos, empty);
        lemma_properties_loop_first_stop(events, p2, e2, acc, i);
    }
}

proof fn lemma_properties_tag_scan_bounds(events: Seq<XmlEvent>, pos: int, empty: bool)
    requires
        0 <= pos <= events.len(),
    ensures
        pos <= properties_tag_scan(events, pos, empty).1 <= events.len(),
        properties_tag_scan(events, pos, empty).0 ==> pos < properties_tag_scan(events, pos, empty).1,
    decreases events.len() - pos,
{
    let (r, p2, e2) = read_step(events, pos, empty);
    if pos < p2 <= events.len() {
        lemma_properties_tag_scan_bounds(events, p2, e2);
    }
}

proof fn lemma_has_properties_next_bounds(events: Seq<XmlEvent>, pos: int, empty: bool)
    requires
        0 <= pos <= events.len(),
    ensures
        pos <= has_properties_next(events, pos, empty).1 <= events.len(),
        has_properties_next(events, pos, empty).0 ==> pos < has_properties_next(events, pos, empty).1,
{
    if !empty {
        lemma_properties_tag_scan_bounds(events, pos, empty);
    }
}

pub(crate) proof fn lemma_parse_properties_bounds(events: Seq<XmlEvent>, pos: int, empty: bool)
    requires
        0 <= pos <= events.len(),
    ensures
        pos <= parse_properties_spec(events, pos, empty).1 <= events.len(),
    decreases events.len() - pos, 2int,
{
    if !empty {
        lemma_properties_loop_bounds(events, pos, empty, seq![]);
    }
}

proof fn lemma_properties_loop_bounds(
    events: Seq<XmlEvent>,
    pos: int,
    empty: bool,
    acc: Seq<(Seq<char>, PropertySpec)>,
)
    requires
        0 <= pos <= events.len(),
    ensures
        pos <= properties_loop(events, pos, empty, acc).1 <= events.len(),
    decreases events.len() - pos, 1int,
{
    let (r, p2, e2) = read_step(events, pos, empty);
    if pos < p2 <= events.len() {
        if let Ok(ev) = r {
            let element = match ev {
                XmlEvent::Start { name, attributes } => Some((name, attributes)),
                XmlEvent::Empty { name, attributes } => Some((name, attributes)),
                _ => None,
            };
            match element {
                Some((name, attributes)) => {
                    if name@ == encode_utf8("property"@) {
                        if let Ok(attrs) = attributes {
                            lemma_property_entry_bounds(events, p2, e2, attrs@);
                            let (res, p3, e3) = property_entry_spec(events, p2, e2, attrs@);
                            if let Ok(entry) = res {
                                lemma_properties_loop_bounds(events, p3, e3, acc.push(entry));
                            }
                        }
                    } else {
                        lemma_properties_loop_bounds(events, p2, e2, acc);
                    }
                },
                None => {
                    lemma_properties_loop_bounds(events, p2, e2, acc);
                },
            }
        }
    }
}

proof fn lemma_property_entry_bounds(
    events: Seq<XmlEvent>,
    pos: int,
    empty: bool,
    attrs: Seq<XmlAttribute>,
)
    requires
        0 <= pos <= events.len(),
    ensures
        pos <= property_entry_spec(events, pos, empty, attrs).1 <= events.len(),
    decreases events.len() - pos, 0int,
{
    lemma_has_properties_next_bounds(events, pos, empty);
    let (has, p2, e2) = has_properties_next(events, pos, empty);
    if has && pos < p2 <= events.len() {
        lemma_parse_properties_bounds(events, p2, e2);
    }
}

/// The text in an optional string.
pub open spec fn text_of(o: Option<String>) -> Option<Seq<char>> {
    match o {
        Some(s) => Some(s@),
        None => None,
    }
}

proof fn lemma_property_attributes_prefix_error(attrs: Seq<XmlAttribute>, i: int)
    requires
        0 <= i <= attrs.len(),
        property_attributes(attrs.take(i)) is Err,
    ensures
        property_attributes(attrs) == property_attributes(attrs.take(i)),
    decreases attrs.len() - i,
{
    if i < attrs.len() {
        assert(attrs.take(i + 1).drop_last() =~= attrs.take(i));
        lemma_property_attributes_prefix_error(attrs, i + 1);
    } else {
        assert(attrs.take(i) =~= attrs);
    }
}

/// Reads the attributes `type`, `value`, `name` and `propertytype` of a
/// `<property>` element.
fn read_property_attributes(attrs: &Vec<XmlAttribute>) -> (r: Result<
    (Option<String>, Option<String>, Option<String>, Option<String>),
    Error,
>)
    ensures
        match (r, property_attributes(attrs@)) {
            (Ok((t, v, k, pt)), Ok(a)) => text_of(t) == a.type_attr && text_of(v) == a.value_attr
                && text_of(k) == a.name_attr && text_of(pt) == a.propertytype_attr,
            (Err(e), Err(ev)) => e@ == ev,
            _ => false,
        },
{
    let mut t: Option<String> = None;
    let mut v: Option<String> = None;
    let mut k: Option<String> = None;
    let mut pt: Option<String> = None;
    let n = attrs.len();
    let mut i: usize = 0;
    assert(attrs@.take(0) =~= Seq::<XmlAttribute>::empty());
    while i < n
        invariant
            n == attrs@.len(),
            i <= n,
            property_attributes(attrs@.take(i as int)) == Ok::<PropertyAttributes, ErrorView>(
                PropertyAttributes {
                    type_attr: text_of(t),
                    value_attr: text_of(v),
                    name_attr: text_of(k),
                    propertytype_attr: text_of(pt),
                },
            ),
        decreases n - i,
    {
        let a = &attrs[i];
        assert(attrs@.take(i + 1).drop_last() =~= attrs@.take(i as int));
        assert(attrs@.take(i + 1).last() == attrs@[i as int]);
        let text = match text_from_utf8(a.value.as_slice()) {
            Ok(text) => text,
            Err(m) => {
                proof {
                    lemma_property_attributes_prefix_error(attrs@, i + 1);
                }
                return Err(Error::XmlDecodingError(m));
            },
        };
        if bytes_equal_text(&a.key, "type") {
            t = Some(text);
        } else if bytes_equal_text(&a.key, "value") {
            v = Some(text);
        } else if bytes_equal_text(&a.key, "propertytype") {
            pt = Some(text);
        } else if bytes_equal_text(&a.key, "name") {
            k = Some(text);
        }
        i = i + 1;
    }
    assert(attrs@.take(n as int) =~= attrs@);
    Ok((t, v, k, pt))
}

/// Whether all of `b` is XML whitespace.
fn is_all_xml_whitespace(b: &Vec<u8>) -> (r: bool)
    ensures
        r == all_xml_whitespace(b@),
{
    let n = b.len();
    let mut i: usize = 0;
    while i < n
        invariant
            n == b@.len(),
            i <= n,
            forall|j: int|
                0 <= j < i ==> (b@[j] == 0x20u8 || b@[j] == 0x09u8 || b@[j] == 0x0du8 || b@[j]
                    == 0x0au8),
        decreases n - i,
    {
        let c = b[i];
        if !(c == 0x20u8 || c == 0x09u8 || c == 0x0du8 || c == 0x0au8) {
            return false;
        }
        i = i + 1;
    }
    true
}

/// A comment, or text made only of spaces, tabs, carriage returns and line
/// feeds.
pub open spec fn is_blank_event(e: XmlEvent) -> bool {
    match e {
        XmlEvent::Comment => true,
        XmlEvent::Text { content } => forall|k: int|
            0 <= k < content@.len() ==> (#[trigger] content@[k] == 0x20u8 || content@[k] == 0x09u8
                || content@[k] == 0x0du8 || content@[k] == 0x0au8),
        _ => false,
    }
}

/// Looking for a `<properties>` element passes over comments and blank
/// text, and decides at the first other event: a start tag answers whether
/// it is `<properties>` and is consumed with everything before it. After an
/// empty element tag nothing is looked at.
pub proof fn lemma_properties_tag_after_blanks(events: Seq<XmlEvent>, pos: int, i: int)
    requires
        0 <= pos <= i < events.len(),
        forall|j: int| pos <= j < i ==> is_blank_event(#[trigger] events[j]),
    ensures
        events[i] matches XmlEvent::Start { name, .. } ==> has_properties_next(events, pos, false)
            == (name@ == encode_utf8("properties"@), i + 1, false),
        has_properties_next(events, pos, true) == (false, pos, true),
    decreases i - pos,
{
    if pos < i {
        assert(is_blank_event(events[pos]));
        if let XmlEvent::Text { content } = events[pos] {
            assert(all_xml_whitespace(content@));
        }
        lemma_properties_tag_after_blanks(events, pos + 1, i);
    }
}

/// Checks if there is a properties tag next in the parser. Will consume any
/// whitespace or comments.
pub fn has_properties_tag_next(parser: &mut Parser) -> (r: bool)
    requires
        old(parser).pos <= old(parser).events@.len(),
    ensures
        final(parser).events == old(parser).events,
        final(parser).pos <= final(parser).events@.len(),
        (r, final(parser).pos as int, final(parser).last_event_was_empty) == has_properties_next(
            old(parser).events@,
            old(parser).pos as int,
            old(parser).last_event_was_empty,
        ),
{
    if parser.last_event_was_empty {
        return false;
    }
    let ghost events = parser.events@;
    loop
        invariant
            parser.events == old(parser).events,
            parser.events@ == events,
            parser.pos <= events.len(),
            !old(parser).last_event_was_empty,
            old(parser).events@ == events,
            has_properties_next(events, old(parser).pos as int, old(parser).last_event_was_empty)
                == properties_tag_scan(events, parser.pos as int, parser.last_event_was_empty),
        decreases events.len() - parser.pos,
    {
        let ghost before = parser.pos as int;
        let ghost before_empty = parser.last_event_was_empty;
        match parser.read_event() {
            Err(_) => {
                return false;
            },
            Ok(None) => {
                return false;
            },
            Ok(Some(next)) => {
                match next {
                    XmlEvent::Start { name, .. } => {
                        return bytes_equal_text(name, "properties");
                    },
                    XmlEvent::Text { content } => {
                        if !is_all_xml_whitespace(content) {
                            return false;
                        }
                    },
                    XmlEvent::Comment => {},
                    _ => {
                        return false;
                    },
                }
            },
        }
    }
}

proof fn lemma_holds_no_entries(p: Properties)
    requires
        p.entries().dom().is_empty(),
    ensures
        holds_entries(p, seq![]),
{
    assert forall|k: Seq<char>| !p.entries().contains_key(k) by {
        assert(!p.entries().dom().contains(k));
    }
}

proof fn lemma_holds_entries_push(
    p: Properties,
    q: Properties,
    entries: Seq<(Seq<char>, PropertySpec)>,
    k: Seq<char>,
    v: PropertyValue,
    s: PropertySpec,
)
    requires
        holds_entries(p, entries),
        q.entries() == p.entries().insert(k, v),
        conforms(v, s),
    ensures
        holds_entries(q, entries.push((k, s))),
{
    let e2 = entries.push((k, s));
    assert forall|key: Seq<char>|
        q.entries().contains_key(key) <==> exists|i: int| 0 <= i < e2.len() && #[trigger] e2[i].0 == key by {
        if key == k {
            assert(e2[entries.len() as int].0 == key);
        } else if p.entries().contains_key(key) {
            let i = choose|i: int| 0 <= i < entries.len() && #[trigger] entries[i].0 == key;
            assert(e2[i].0 == key);
        } else {
            if exists|i: int| 0 <= i < e2.len() && #[trigger] e2[i].0 == key {
                let i = choose|i: int| 0 <= i < e2.len() && #[trigger] e2[i].0 == key;
                assert(entries[i].0 == key);
            }
        }
    }
    assert forall|i: int| 0 <= i < e2.len() && is_last_with_name(e2, i) implies conforms(
        q.entries()[#[trigger] e2[i].0],
        e2[i].1,
    ) by {
        if i < entries.len() {
            assert(e2[entries.len() as int].0 == k);
            assert(e2[i] == entries[i]);
            assert(is_last_with_name(entries, i)) by {
                assert forall|j: int| i < j < entries.len() implies entries[j].0 != entries[i].0 by {
                    assert(e2[j] == entries[j]);
                }
            }
        }
    }
}

/// Reads the children of a `<properties>` element whose start tag was the
/// last event read, up to its end tag.
pub fn parse_properties(parser: &mut Parser) -> (r: Result<Properties, Error>)
    requires
        old(parser).pos <= old(parser).events@.len(),
    ensures
        final(parser).events == old(parser).events,
        final(parser).pos <= final(parser).events@.len(),
        ({
            let (res, pos, empty) = parse_properties_spec(
                old(parser).events@,
                old(parser).pos as int,
                old(parser).last_event_was_empty,
            );
            &&& final(parser).pos == pos
            &&& final(parser).last_event_was_empty == empty
            &&& match (r, res) {
                (Ok(p), Ok(entries)) => holds_entries(p, entries),
                (Err(e), Err(ev)) => e@ == ev,
                _ => false,
            }
        }),
    decreases old(parser).events@.len() - old(parser).pos, 2int,
{
    let mut p = Properties::new();
    proof {
        lemma_holds_no_entries(p);
    }
    if parser.last_event_was_empty {
        return Ok(p);
    }
    let ghost events = parser.events@;
    let ghost mut acc: Seq<(Seq<char>, PropertySpec)> = seq![];
    loop
        invariant
            parser.events == old(parser).events,
            parser.events@ == events,
            old(parser).events@ == events,
            old(parser).pos <= parser.pos <= events.len(),
            !old(parser).last_event_was_empty,
            holds_entries(p, acc),
            parse_properties_spec(events, old(parser).pos as int, old(parser).last_event_was_empty)
                == properties_loop(events, parser.pos as int, parser.last_event_was_empty, acc),
        decreases events.len() - parser.pos,
    {
        let ghost before = parser.pos as int;
        let ghost before_empty = parser.last_event_was_empty;
        let next = parser.read_event()?;
        match next {
            None => {
                return Err(Error::PrematureEnd(String::from_str("Document ended before we expected.")));
            },
            Some(ev) => {
                let element = match ev {
                    XmlEvent::Start { name, attributes } => Some((name, attributes)),
                    XmlEvent::Empty { name, attributes } => Some((name, attributes)),
                    _ => None,
                };
                match element {
                    Some((name, attributes)) => {
                        if bytes_equal_text(name, "property") {
                            match attributes {
                                Err(m) => {
                                    return Err(Error::XmlDecodingError(m.clone()));
                                },
                                Ok(attrs) => {
                                    let ghost p_before = p;
                                    let ghost p2 = parser.pos as int;
                                    let ghost e2 = parser.last_event_was_empty;
                                    proof {
                                        lemma_property_entry_bounds(events, p2, e2, attrs@);
                                    }
                                    parse_properties_inner(parser, &mut p, attrs)?;
                                    proof {
                                        let (res, p3, e3) = property_entry_spec(events, p2, e2, attrs@);
                                        let entry = res->Ok_0;
                                        lemma_holds_entries_push(
                                            p_before,
                                            p,
                                            acc,
                                            entry.0,
                                            p.entries()[entry.0],
                                            entry.1,
                                        );
                                        acc = acc.push(entry);
                                    }
                                },
                            }
                        }
                    },
                    None => {
                        match ev {
                            XmlEvent::End { name } => {
                                if bytes_equal_text(name, "properties") {
                                    return Ok(p);
                                }
                            },
                            XmlEvent::Eof => {
                                return Err(
                                    Error::PrematureEnd(String::from_str("Document ended before we expected.")),
                                );
                            },
                            _ => {},
                        }
                    },
                }
            },
        }
    }
}

/// Reads one `<property>` element whose start tag was the last event read,
/// with attributes `attrs`, and inserts it into `p`.
fn parse_properties_inner(parser: &mut Parser, p: &mut Properties, attrs: &Vec<XmlAttribute>) -> (r:
    Result<(), Error>)
    requires
        old(parser).pos <= old(parser).events@.len(),
    ensures
        final(parser).events == old(parser).events,
        final(parser).pos <= final(parser).events@.len(),
        r is Err ==> *final(p) == *old(p),
        ({
            let (res, pos, empty) = property_entry_spec(
                old(parser).events@,
                old(parser).pos as int,
                old(parser).last_event_was_empty,
                attrs@,
            );
            &&& final(parser).pos == pos
            &&& final(parser).last_event_was_empty == empty
            &&& match (r, res) {
                (Ok(()), Ok((k, s))) => final(p).entries() == old(p).entries().insert(
                    k,
                    final(p).entries()[k],
                ) && conforms(final(p).entries()[k], s),
                (Err(e), Err(ev)) => e@ == ev,
                _ => false,
            }
        }),
    decreases old(parser).events@.len() - old(parser).pos, 1int,
{
    let ghost events = parser.events@;
    let (t, v_attr, k, p_t) = read_property_attributes(attrs)?;
    let k = match k {
        Some(k) => k,
        None => {
            return Err(Error::MalformedAttributes(String::from_str("Missing attribute: name")));
        },
    };
    let t = match t {
        Some(t) => t,
        None => String::from_str("string"),
    };
    if str_equals(t.as_str(), "class") {
        let property_type = match p_t {
            Some(x) => x,
            None => String::new(),
        };
        let ghost pos0 = parser.pos as int;
        proof {
            lemma_has_properties_next_bounds(events, pos0, parser.last_event_was_empty);
        }
        let properties = if has_properties_tag_next(parser) {
            parse_properties(parser)?
        } else {
            let none = Properties::new();
            proof {
                lemma_holds_no_entries(none);
            }
            none
        };
        let value = PropertyValue::ClassValue { property_type, properties };
        p.insert(k, value);
        return Ok(());
    }
    let v: String = match v_attr {
        Some(val) => val,
        None => {
            match parser.read_event() {
                Ok(Some(XmlEvent::Text { content })) => {
                    match text_from_utf8(content.as_slice()) {
                        Ok(text) => text,
                        Err(m) => {
                            return Err(Error::XmlDecodingError(m));
                        },
                    }
                },
                Err(err) => {
                    return Err(err);
                },
                _ => {
                    let mut message = String::from_str("property `");
                    message.append(k.as_str());
                    message.append("` is missing a value");
                    return Err(Error::MalformedAttributes(message));
                },
            }
        },
    };
    let value = PropertyValue::new(t, v)?;
    p.insert(k, value);
    Ok(())
}

} // verus!
