use vstd::prelude::*;

verus! {

/// The value that the JIS X 0208 index holds for `pointer`; 0xFFFF marks a
/// pointer without a character.
pub uninterp spec fn jis0208_index(pointer: u16) -> u32;

/// Display width of `c` where ambiguous characters count as wide.
pub uninterp spec fn cjk_width(c: char) -> Option<usize>;

/// The full compatibility decomposition of `c`.
pub uninterp spec fn compat_decomposition(c: char) -> Seq<char>;

/// Relies on encoding_index_japanese::jis0208::forward: the index value for
/// a pointer, 0xFFFF past the end of the table.
#[verifier::external_body]
fn jis0208_forward(pointer: u16) -> (r: u32)
    ensures
        r == jis0208_index(pointer),
        pointer >= 11104 ==> r == 0xffff,
{
    encoding_index_japanese::jis0208::forward(pointer)
}

/// Relies on unicode_width::UnicodeWidthChar::width_cjk: the width of a
/// character in a CJK context.
#[verifier::external_body]
fn width_cjk(c: char) -> (r: Option<usize>)
    ensures
        r == cjk_width(c),
{
    unicode_width::UnicodeWidthChar::width_cjk(c)
}

/// Relies on unicode_normalization::char::decompose_compatible: the
/// characters that it emits for `c`, in order.
#[verifier::external_body]
fn decompose_compatible(c: char) -> (r: Vec<char>)
    ensures
        r@ == compat_decomposition(c),
{
    let mut out = Vec::new();
    unicode_normalization::char::decompose_compatible(c, |d| out.push(d));
    out
}

/// Whether `v` is a Unicode scalar value.
pub open spec fn is_scalar(v: u32) -> bool {
    v < 0xd800 || (0xe000 <= v && v <= 0x10ffff)
}

/// Relies on char::from_u32: the character of a scalar value, `None` for
/// any other value.
#[verifier::external_body]
fn char_from_u32(v: u32) -> (r: Option<char>)
    ensures
        r.is_some() == is_scalar(v),
        r matches Some(c) ==> scalar_value(c) == v as int,
{
    char::from_u32(v)
}

/// The character whose scalar value is `v`.
pub open spec fn scalar_char(v: u32) -> char
    recommends
        is_scalar(v),
{
    choose|c: char| #[trigger] scalar_value(c) == v as int
}

/// The scalar value of `c`.
pub open spec fn scalar_value(c: char) -> int {
    c as int
}

/// Pointer into the JIS X 0208 index of a two-byte code whose row and cell
/// bytes both lie in 0x21..=0x7E; `None` for any other code.
pub open spec fn jis_pointer_of(code: u16) -> Option<u16> {
    let row = code as int / 256;
    let cell = code as int % 256;
    if 0x21 <= row <= 0x7e && 0x21 <= cell <= 0x7e {
        Some(((row - 0x21) * 94 + (cell - 0x21)) as u16)
    } else {
        None
    }
}

/// The character that a two-byte JIS X 0208 code stands for, if any.
pub open spec fn resolve(code: u16) -> Option<char> {
    match jis_pointer_of(code) {
        None => None,
        Some(p) => {
            let v = jis0208_index(p);
            if v == 0xffff || !is_scalar(v) {
                None
            } else {
                Some(scalar_char(v))
            }
        },
    }
}

/// The narrow form of `c`, given its CJK width and its compatibility
/// decomposition: a wide character becomes the last character of its
/// decomposition. This stands in for a proper width mapping table and may
/// also change wide characters that have no narrow counterpart.
pub open spec fn narrow_of(c: char, width: Option<usize>, decomposition: Seq<char>) -> char {
    if width == Some(2usize) && decomposition.len() > 0 {
        decomposition.last()
    } else {
        c
    }
}

/// The narrow form of `c`.
pub open spec fn narrowed(c: char) -> char {
    narrow_of(c, cjk_width(c), compat_decomposition(c))
}

/// Pointer into the JIS X 0208 index of a two-byte code.
pub fn jis_pointer(code: u16) -> (r: Option<u16>)
    ensures
        r == jis_pointer_of(code),
{
    let row: u16 = code / 256;
    let cell: u16 = code % 256;
    if 0x21 <= row && row <= 0x7e && 0x21 <= cell && cell <= 0x7e {
        Some((row - 0x21) * 94 + (cell - 0x21))
    } else {
        None
    }
}

/// The character that a two-byte JIS X 0208 code stands for, `None` where
/// the code lies outside the table or the table has no character for it.
pub fn decode_codepoint(code: u16) -> (r: Option<char>)
    ensures
        r == resolve(code),
{
    match jis_pointer(code) {
        None => None,
        Some(p) => {
            let v = jis0208_forward(p);
            if v == 0xffff {
                None
            } else {
                match char_from_u32(v) {
                    None => None,
                    Some(c) => {
                        assert(scalar_value(scalar_char(v)) == v as int);
                        Some(c)
                    },
                }
            }
        },
    }
}

/// The narrow form of `c` from its CJK width and its compatibility
/// decomposition.
pub fn narrow_form(c: char, width: Option<usize>, decomposition: &Vec<char>) -> (r: char)
    ensures
        r == narrow_of(c, width, decomposition@),
{
    if width == Some(2usize) && decomposition.len() > 0 {
        decomposition[decomposition.len() - 1]
    } else {
        c
    }
}

/// The narrow form of `c`: wide characters are replaced by the last
/// character of their compatibility decomposition.
pub fn to_narrow(c: char) -> (r: char)
    ensures
        r == narrowed(c),
{
    let width = width_cjk(c);
    if width == Some(2usize) {
        let decomposition = decompose_compatible(c);
        narrow_form(c, width, &decomposition)
    } else {
        c
    }
}

} // verus!
