use vstd::prelude::*;
use crate::charset::{decode_codepoint, narrowed, resolve, to_narrow};
use crate::error::{Error, IoError, eof};

verus! {

/// The escape marker that opens a control sequence.
pub const ESCAPE: u8 = 0x1f;

/// Control code: start of text, a marker only.
pub const START_TEXT: u8 = 0x02;

/// Control code: end of text, where decoding stops.
pub const END_TEXT: u8 = 0x03;

/// Control code: narrow characters follow.
pub const START_NARROW: u8 = 0x04;

/// Control code: narrow characters end.
pub const END_NARROW: u8 = 0x05;

/// Control code: a line break.
pub const NEWLINE: u8 = 0x0a;

/// Control code: a keyword begins; a 16-bit keyword code follows.
pub const BEGIN_KEYWORD: u8 = 0x41;

/// Control code: a keyword ends.
pub const END_KEYWORD: u8 = 0x61;

/// One element of decoded text.
#[derive(Debug, Clone, PartialEq, Eq)]
pub enum TextElement {
    /// A run of decoded characters.
    UnicodeString(String),
    /// A two-byte code that has no Unicode character.
    CustomCharacter(u16),
    /// A line break.
    Newline,
}

/// The mathematical value of a `TextElement`.
pub enum ElementModel {
    Chars(Seq<char>),
    Custom(u16),
    Break,
}

impl View for TextElement {
    type V = ElementModel;

    open spec fn view(&self) -> ElementModel {
        match self {
            TextElement::UnicodeString(s) => ElementModel::Chars(s@),
            TextElement::CustomCharacter(c) => ElementModel::Custom(*c),
            TextElement::Newline => ElementModel::Break,
        }
    }
}

/// Decoded text: its elements in the order of the stream.
#[derive(Debug, Clone, PartialEq, Eq)]
pub struct Text(pub Vec<TextElement>);

/// The models of a sequence of elements.
pub open spec fn models(v: Seq<TextElement>) -> Seq<ElementModel> {
    Seq::new(v.len(), |i: int| v[i]@)
}

impl View for Text {
    type V = Seq<ElementModel>;

    open spec fn view(&self) -> Seq<ElementModel> {
        models(self.0@)
    }
}

/// Whether an element is a run of characters.
pub open spec fn is_chars(e: ElementModel) -> bool {
    e is Chars
}

/// No two neighbouring elements are both runs of characters, and no run is
/// empty.
pub open spec fn coalesced(t: Seq<ElementModel>) -> bool {
    &&& forall|i: int| 0 <= i < t.len() - 1 ==> !(is_chars(#[trigger] t[i]) && is_chars(t[i + 1]))
    &&& forall|i: int| 0 <= i < t.len() && is_chars(#[trigger] t[i]) ==> t[i]->Chars_0.len() > 0
}

/// `t` with `c` appended: to the run of characters that ends it, or as a
/// new run.
pub open spec fn push_scalar(t: Seq<ElementModel>, c: char) -> Seq<ElementModel> {
    if t.len() > 0 && is_chars(t.last()) {
        t.update(t.len() - 1, ElementModel::Chars(t.last()->Chars_0.push(c)))
    } else {
        t.push(ElementModel::Chars(seq![c]))
    }
}

/// `t` with the two-byte code `code` appended: its character (in narrow form
/// where `narrow` holds) if it has one, else the code itself.
pub open spec fn push_code(t: Seq<ElementModel>, code: u16, narrow: bool) -> Seq<ElementModel> {
    match resolve(code) {
        Some(c) => push_scalar(t, if narrow { narrowed(c) } else { c }),
        None => t.push(ElementModel::Custom(code)),
    }
}

/// The big-endian 16-bit value of the two bytes at `at`.
pub open spec fn be_u16(data: Seq<u8>, at: int) -> u16 {
    ((data[at] as int) * 256 + (data[at + 1] as int)) as u16
}

/// Decoding `data` from `pos` on, in narrow mode or not, with the keyword
/// code that ends the entry (if one was seen) and the elements decoded so
/// far: the elements and the position just past the last byte consumed, or
/// the error.
pub open spec fn decode_from(
    data: Seq<u8>,
    pos: int,
    narrow: bool,
    delimiter: Option<u16>,
    acc: Seq<ElementModel>,
) -> Result<(Seq<ElementModel>, int), Error>
    decreases data.len() - pos,
{
    if pos < 0 || pos + 2 > data.len() {
        Err(eof())
    } else {
        let b = data[pos];
        let op = data[pos + 1];
        if b == ESCAPE {
            if op == START_TEXT || op == END_KEYWORD {
                decode_from(data, pos + 2, narrow, delimiter, acc)
            } else if op == END_TEXT {
                Ok((acc, pos + 2))
            } else if op == START_NARROW {
                decode_from(data, pos + 2, true, delimiter, acc)
            } else if op == END_NARROW {
                decode_from(data, pos + 2, false, delimiter, acc)
            } else if op == NEWLINE {
                decode_from(data, pos + 2, narrow, delimiter, acc.push(ElementModel::Break))
            } else if op == BEGIN_KEYWORD {
                if pos + 4 > data.len() {
                    Err(eof())
                } else {
                    let keyword = be_u16(data, pos + 2);
                    if delimiter == Some(keyword) {
                        Ok((acc, pos + 4))
                    } else if delimiter is None {
                        decode_from(data, pos + 4, narrow, Some(keyword), acc)
                    } else {
                        decode_from(data, pos + 4, narrow, delimiter, acc)
                    }
                }
            } else {
                Err(Error::InvalidControlCode(op))
            }
        } else {
            decode_from(data, pos + 2, narrow, delimiter, push_code(acc, be_u16(data, pos), narrow))
        }
    }
}

/// Decoding the text that starts at `start`: its elements and the position
/// just past the terminator, or the error.
pub open spec fn decode_text(data: Seq<u8>, start: int) -> Result<(Seq<ElementModel>, int), Error> {
    decode_from(data, start, false, None, seq![])
}

/// Closes a pending run of characters into the elements.
pub open spec fn flush(t: Seq<ElementModel>, run: Seq<char>) -> Seq<ElementModel> {
    if run.len() == 0 {
        t
    } else {
        t.push(ElementModel::Chars(run))
    }
}

/// Relies on String::push: appends one character.
#[verifier::external_body]
fn push_char(s: &mut String, c: char)
    ensures
        final(s)@ == old(s)@.push(c),
{
    s.push(c)
}

/// Relies on String::push_str: appends the characters of `t`.
#[verifier::external_body]
fn push_str(s: &mut String, t: &str)
    ensures
        final(s)@ == old(s)@ + t@,
{
    s.push_str(t)
}

proof fn lemma_push_scalar_coalesced(t: Seq<ElementModel>, c: char)
    requires
        coalesced(t),
    ensures
        coalesced(push_scalar(t, c)),
{
    let u = push_scalar(t, c);
    assert forall|i: int| 0 <= i < u.len() - 1 implies !(is_chars(#[trigger] u[i]) && is_chars(
        u[i + 1],
    )) by {
        if i < t.len() - 1 {
            assert(u[i] == t[i]);
            if i + 1 < t.len() - 1 {
                assert(u[i + 1] == t[i + 1]);
            }
        }
    }
    assert forall|i: int| 0 <= i < u.len() && is_chars(#[trigger] u[i]) implies u[i]->Chars_0.len()
        > 0 by {
        if i < t.len() - 1 {
            assert(u[i] == t[i]);
        }
    }
}

proof fn lemma_push_other_coalesced(t: Seq<ElementModel>, e: ElementModel)
    requires
        coalesced(t),
        !is_chars(e),
    ensures
        coalesced(t.push(e)),
{
    let u = t.push(e);
    assert forall|i: int| 0 <= i < u.len() - 1 implies !(is_chars(#[trigger] u[i]) && is_chars(
        u[i + 1],
    )) by {
        assert(u[i] == t[i]);
        if i + 1 < t.len() {
            assert(u[i + 1] == t[i + 1]);
        }
    }
    assert forall|i: int| 0 <= i < u.len() && is_chars(#[trigger] u[i]) implies u[i]->Chars_0.len()
        > 0 by {
        if i < t.len() {
            assert(u[i] == t[i]);
        }
    }
}

/// Neighbouring characters always share one run: decoding from elements in
/// which no two runs of characters are neighbours and no run is empty gives
/// such elements too.
pub proof fn lemma_decode_from_coalesced(
    data: Seq<u8>,
    pos: int,
    narrow: bool,
    delimiter: Option<u16>,
    acc: Seq<ElementModel>,
)
    requires
        coalesced(acc),
    ensures
        decode_from(data, pos, narrow, delimiter, acc) matches Ok((t, _)) ==> coalesced(t),
    decreases data.len() - pos,
{
    if !(pos < 0 || pos + 2 > data.len()) {
        let b = data[pos];
        let op = data[pos + 1];
        if b == ESCAPE {
            if op == NEWLINE {
                lemma_push_other_coalesced(acc, ElementModel::Break);
                lemma_decode_from_coalesced(
                    data,
                    pos + 2,
                    narrow,
                    delimiter,
                    acc.push(ElementModel::Break),
                );
            } else if op == BEGIN_KEYWORD {
                if pos + 4 <= data.len() {
                    let keyword = be_u16(data, pos + 2);
                    lemma_decode_from_coalesced(data, pos + 4, narrow, Some(keyword), acc);
                    lemma_decode_from_coalesced(data, pos + 4, narrow, delimiter, acc);
                }
            } else {
                lemma_decode_from_coalesced(data, pos + 2, true, delimiter, acc);
                lemma_decode_from_coalesced(data, pos + 2, false, delimiter, acc);
            }
        } else {
            let code = be_u16(data, pos);
            match resolve(code) {
                Some(c) => {
                    lemma_push_scalar_coalesced(acc, if narrow { narrowed(c) } else { c });
                },
                None => {
                    lemma_push_other_coalesced(acc, ElementModel::Custom(code));
                },
            }
            lemma_decode_from_coalesced(
                data,
                pos + 2,
                narrow,
                delimiter,
                push_code(acc, code, narrow),
            );
        }
    }
}

/// No decoded text holds two neighbouring runs of characters, nor an empty
/// run.
pub proof fn lemma_decode_coalesced(data: Seq<u8>, start: int)
    ensures
        decode_text(data, start) matches Ok((t, _)) ==> coalesced(t),
{
    lemma_decode_from_coalesced(data, start, false, None, seq![]);
}

/// Decoding is a function of the bytes: the same bytes from the same start
/// give the same text, or the same error.
pub proof fn lemma_decode_deterministic(a: Seq<u8>, b: Seq<u8>, start: int)
    requires
        a == b,
    ensures
        decode_text(a, start) == decode_text(b, start),
{
}

/// An escape marker followed by a byte that is no control code fails the
/// decoding with that byte, whatever state the decoder is in.
pub proof fn lemma_invalid_control_code(
    data: Seq<u8>,
    pos: int,
    narrow: bool,
    delimiter: Option<u16>,
    acc: Seq<ElementModel>,
)
    requires
        0 <= pos,
        pos + 2 <= data.len(),
        data[pos] == ESCAPE,
        data[pos + 1] != START_TEXT,
        data[pos + 1] != END_TEXT,
        data[pos + 1] != START_NARROW,
        data[pos + 1] != END_NARROW,
        data[pos + 1] != NEWLINE,
        data[pos + 1] != BEGIN_KEYWORD,
        data[pos + 1] != END_KEYWORD,
    ensures
        decode_from(data, pos, narrow, delimiter, acc) == Err::<(Seq<ElementModel>, int), Error>(
            Error::InvalidControlCode(data[pos + 1]),
        ),
{
}

/// The plain characters of one element: a run gives its characters, a line
/// break a newline, a custom character nothing.
pub open spec fn element_text(e: ElementModel) -> Seq<char> {
    match e {
        ElementModel::Chars(s) => s,
        ElementModel::Custom(_) => seq![],
        ElementModel::Break => seq!['\n'],
    }
}

/// The plain characters of elements, in order.
pub open spec fn plaintext(t: Seq<ElementModel>) -> Seq<char>
    decreases t.len(),
{
    if t.len() == 0 {
        seq![]
    } else {
        plaintext(t.drop_last()) + element_text(t.last())
    }
}

impl Text {
    /// The text as a plain string: runs of characters as they are, line
    /// breaks as newlines, custom characters left out.
    pub fn to_plaintext(&self) -> (r: String)
        ensures
            r@ == plaintext(self@),
    {
        let mut out = String::new();
        let elems = &self.0;
        let mut i: usize = 0;
        proof {
            assert(models(elems@).take(0) =~= seq![]);
        }
        while i < elems.len()
            invariant
                i <= elems@.len(),
                out@ == plaintext(models(elems@).take(i as int)),
            decreases elems@.len() - i,
        {
            let ghost m = models(elems@);
            proof {
                assert(m.take(i + 1).drop_last() =~= m.take(i as int));
                assert(m.take(i + 1).last() == elems@[i as int]@);
            }
            match &elems[i] {
                TextElement::UnicodeString(s) => push_str(&mut out, s.as_str()),
                TextElement::CustomCharacter(_) => {
                    assert(out@ =~= out@ + seq![]);
                },
                TextElement::Newline => push_char(&mut out, '\n'),
            }
            i = i + 1;
        }
        proof {
            assert(models(elems@).take(i as int) =~= models(elems@));
        }
        out
    }
}

proof fn lemma_models_push(v: Seq<TextElement>, e: TextElement)
    ensures
        models(v.push(e)) == models(v).push(e@),
{
    assert(models(v.push(e)) =~= models(v).push(e@));
}

/// Whether the last element is a run of characters.
pub open spec fn ends_in_chars(t: Seq<ElementModel>) -> bool {
    t.len() > 0 && is_chars(t.last())
}

/// Moves a pending run of characters, if it is not empty, to the end of `text`.
fn close_run(text: &mut Vec<TextElement>, run: String)
    ensures
        models(final(text)@) == flush(models(old(text)@), run@),
{
    if !run.as_str().is_empty() {
        proof {
            lemma_models_push(text@, TextElement::UnicodeString(run));
        }
        text.push(TextElement::UnicodeString(run));
    }
}

/// Decodes the text that starts at byte `start` of `data`. Escape sequences
/// switch narrow mode, break lines and mark keywords; every other pair of
/// bytes is a big-endian character code, and neighbouring characters join
/// into one run. Decoding ends after an end-of-text code, or at a keyword code
/// equal to the first one seen, which opens the next entry. Returns the text
/// and the position just past the last byte consumed.
pub fn read_text(data: &Vec<u8>, start: usize) -> (r: Result<(Text, usize), Error>)
    ensures
        match r {
            Ok((t, end)) => decode_text(data@, start as int) == Ok::<
                (Seq<ElementModel>, int),
                Error,
            >((t@, end as int)),
            Err(e) => decode_text(data@, start as int) == Err::<(Seq<ElementModel>, int), Error>(e),
        },
        r matches Ok((t, _)) ==> coalesced(t@),
{
    let n = data.len();
    if start > n {
        return Err(Error::Io(IoError::UnexpectedEof));
    }
    let mut text: Vec<TextElement> = Vec::new();
    let mut run = String::new();
    let mut pos: usize = start;
    let mut narrow = false;
    let mut delimiter: Option<u16> = None;
    proof {
        assert(models(text@) =~= seq![]);
        assert(run@ =~= seq![]);
    }
    loop
        invariant_except_break
            decode_text(data@, start as int) == decode_from(
                data@,
                pos as int,
                narrow,
                delimiter,
                flush(models(text@), run@),
            ),
        invariant
            n == data@.len(),
            pos <= n,
            !ends_in_chars(models(text@)),
        ensures
            decode_text(data@, start as int) == Ok::<(Seq<ElementModel>, int), Error>(
                (flush(models(text@), run@), pos as int),
            ),
        decreases n - pos,
    {
        if n - pos < 2 {
            return Err(Error::Io(IoError::UnexpectedEof));
        }
        let b = data[pos];
        let op = data[pos + 1];
        if b == ESCAPE {
            if op == START_TEXT || op == END_KEYWORD {
                pos = pos + 2;
            } else if op == END_TEXT {
                pos = pos + 2;
                break;
            } else if op == START_NARROW {
                narrow = true;
                pos = pos + 2;
            } else if op == END_NARROW {
                narrow = false;
                pos = pos + 2;
            } else if op == NEWLINE {
                close_run(&mut text, run);
                run = String::new();
                proof {
                    lemma_models_push(text@, TextElement::Newline);
                }
                text.push(TextElement::Newline);
                proof {
                    assert(run@ =~= seq![]);
                }
                pos = pos + 2;
            } else if op == BEGIN_KEYWORD {
                if n - pos < 4 {
                    return Err(Error::Io(IoError::UnexpectedEof));
                }
                let keyword: u16 = (data[pos + 2] as u16) * 256 + (data[pos + 3] as u16);
                assert(keyword == be_u16(data@, pos + 2));
                if delimiter == Some(keyword) {
                    pos = pos + 4;
                    break;
                } else if delimiter.is_none() {
                    delimiter = Some(keyword);
                }
                pos = pos + 4;
            } else {
                return Err(Error::InvalidControlCode(op));
            }
        } else {
            let code: u16 = (b as u16) * 256 + (op as u16);
            assert(code == be_u16(data@, pos as int));
            match decode_codepoint(code) {
                Some(c) => {
                    let c = if narrow {
                        to_narrow(c)
                    } else {
                        c
                    };
                    let ghost before = run@;
                    push_char(&mut run, c);
                    proof {
                        let t = models(text@);
                        if before.len() > 0 {
                            assert(flush(t, before).last() == ElementModel::Chars(before));
                            assert(push_scalar(flush(t, before), c) =~= flush(t, run@));
                        } else {
                            assert(flush(t, before) == t);
                            assert(run@ =~= seq![c]);
                        }
                    }
                },
                None => {
                    close_run(&mut text, run);
                    run = String::new();
                    proof {
                        lemma_models_push(text@, TextElement::CustomCharacter(code));
                    }
                    text.push(TextElement::CustomCharacter(code));
                    proof {
                        assert(run@ =~= seq![]);
                    }
                },
            }
            pos = pos + 2;
        }
    }
    close_run(&mut text, run);
    proof {
        lemma_decode_coalesced(data@, start as int);
    }
    Ok((Text(text), pos))
}

} // verus!
