//! Rebuilds the text of each record element from a stream of XML events.
//!
//! Outside a record every event but the record's start tag is passed over.
//! Inside, nested start and end tags are written back as `<name>` and
//! `</name>`, and text as its bytes with Rust's ASCII escapes, until the end
//! tag of the record closes the fragment.
use vstd::prelude::*;

verus! {

/// One event of an XML token reader, as the extractor needs it.
#[derive(Debug)]
pub enum XmlEvent {
    /// A start tag, by its name.
    Start(Vec<u8>),
    /// An end tag, by its name.
    End(Vec<u8>),
    /// Character data, still in its raw (entity-escaped) form.
    Text(Vec<u8>),
    /// The end of the input.
    Eof,
    /// Anything else: comments, declarations, empty elements, CDATA.
    Other,
}

#[derive(Clone, Copy, Debug, PartialEq, Eq, Structural)]
pub enum StructuralError {
    /// The input ended inside a record element.
    UnterminatedRecord,
}

pub open spec fn hex_digit(n: u8) -> u8 {
    if n < 10 { (48 + n) as u8 } else { (87 + n) as u8 }
}

/// How `u8::escape_ascii` writes one byte.
pub open spec fn escape_byte(b: u8) -> Seq<u8> {
    if b == 9 {
        seq![92u8, 116u8]
    } else if b == 13 {
        seq![92u8, 114u8]
    } else if b == 10 {
        seq![92u8, 110u8]
    } else if b == 92 || b == 39 || b == 34 {
        seq![92u8, b]
    } else if 32 <= b <= 126 {
        seq![b]
    } else {
        seq![92u8, 120u8, hex_digit(b / 16), hex_digit(b % 16)]
    }
}

/// How `<[u8]>::escape_ascii` writes a run of bytes.
pub open spec fn escaped(t: Seq<u8>) -> Seq<u8>
    decreases t.len(),
{
    if t.len() == 0 {
        Seq::<u8>::empty()
    } else {
        escaped(t.drop_last()) + escape_byte(t.last())
    }
}

pub open spec fn open_tag(name: Seq<u8>) -> Seq<u8> {
    seq![60u8] + name + seq![62u8]
}

pub open spec fn close_tag(name: Seq<u8>) -> Seq<u8> {
    seq![60u8, 47u8] + name + seq![62u8]
}

/// The name of the record element, `reputation`.
pub open spec fn reputation_tag_spec() -> Seq<u8> {
    seq![114u8, 101u8, 112u8, 117u8, 116u8, 97u8, 116u8, 105u8, 111u8, 110u8]
}

/// What one event does: the fragment being built afterwards (none outside a
/// record), and what is handed out.
pub open spec fn extract_step(tag: Seq<u8>, open: Option<Seq<u8>>, ev: XmlEvent) -> (
    Option<Seq<u8>>,
    Result<Option<Seq<u8>>, StructuralError>,
) {
    match open {
        None => match ev {
            XmlEvent::Start(n) => if n@ == tag {
                (Some(open_tag(tag)), Ok(None))
            } else {
                (None, Ok(None))
            },
            _ => (None, Ok(None)),
        },
        Some(b) => match ev {
            XmlEvent::Text(t) => (Some(b + escaped(t@)), Ok(None)),
            XmlEvent::Start(n) => (Some(b + open_tag(n@)), Ok(None)),
            XmlEvent::End(n) => if n@ == tag {
                (None, Ok(Some(b + close_tag(tag))))
            } else {
                (Some(b + close_tag(n@)), Ok(None))
            },
            XmlEvent::Eof => (Some(b), Err(StructuralError::UnterminatedRecord)),
            XmlEvent::Other => (Some(b), Ok(None)),
        },
    }
}

pub open spec fn fragment_view(r: Result<Option<Vec<u8>>, StructuralError>) -> Result<
    Option<Seq<u8>>,
    StructuralError,
> {
    match r {
        Ok(Some(f)) => Ok(Some(f@)),
        Ok(None) => Ok(None),
        Err(e) => Err(e),
    }
}

/// The bytes `reputation`.
pub fn reputation_tag() -> (r: Vec<u8>)
    ensures
        r@ == reputation_tag_spec(),
{
    let r = vec![114u8, 101u8, 112u8, 117u8, 116u8, 97u8, 116u8, 105u8, 111u8, 110u8];
    assert(r@ =~= reputation_tag_spec());
    r
}

fn hex_digit_exec(n: u8) -> (r: u8)
    requires
        n < 16,
    ensures
        r == hex_digit(n),
{
    if n < 10 { 48 + n } else { 87 + n }
}

/// Appends `t` with Rust's ASCII escapes, as `<[u8]>::escape_ascii` writes it.
pub fn push_escaped(out: &mut Vec<u8>, t: &[u8])
    ensures
        final(out)@ == old(out)@ + escaped(t@),
{
    let n = t.len();
    let mut i: usize = 0;
    while i < n
        invariant
            n == t@.len(),
            i <= n,
            out@ == old(out)@ + escaped(t@.subrange(0, i as int)),
        decreases n - i,
    {
        let b = t[i];
        let ghost before = out@;
        if b == 9 {
            out.push(92u8);
            out.push(116u8);
        } else if b == 13 {
            out.push(92u8);
            out.push(114u8);
        } else if b == 10 {
            out.push(92u8);
            out.push(110u8);
        } else if b == 92 || b == 39 || b == 34 {
            out.push(92u8);
            out.push(b);
        } else if 32 <= b && b <= 126 {
            out.push(b);
        } else {
            out.push(92u8);
            out.push(120u8);
            out.push(hex_digit_exec(b / 16));
            out.push(hex_digit_exec(b % 16));
        }
        proof {
            let q = t@.subrange(0, i + 1);
            assert(q.drop_last() =~= t@.subrange(0, i as int));
            assert(q.last() == b);
            assert(out@ =~= before + escape_byte(b));
            assert(out@ =~= old(out)@ + escaped(q));
        }
        i = i + 1;
    }
    assert(t@.subrange(0, n as int) =~= t@);
}

fn push_all(out: &mut Vec<u8>, t: &[u8])
    ensures
        final(out)@ == old(out)@ + t@,
{
    let n = t.len();
    let mut i: usize = 0;
    while i < n
        invariant
            n == t@.len(),
            i <= n,
            out@ == old(out)@ + t@.subrange(0, i as int),
        decreases n - i,
    {
        out.push(t[i]);
        assert(out@ =~= old(out)@ + t@.subrange(0, i + 1));
        i = i + 1;
    }
    assert(t@.subrange(0, n as int) =~= t@);
}

fn push_open_tag(out: &mut Vec<u8>, name: &[u8])
    ensures
        final(out)@ == old(out)@ + open_tag(name@),
{
    out.push(60u8);
    push_all(out, name);
    out.push(62u8);
    assert(out@ =~= old(out)@ + open_tag(name@));
}

fn push_close_tag(out: &mut Vec<u8>, name: &[u8])
    ensures
        final(out)@ == old(out)@ + close_tag(name@),
{
    out.push(60u8);
    out.push(47u8);
    push_all(out, name);
    out.push(62u8);
    assert(out@ =~= old(out)@ + close_tag(name@));
}

fn bytes_eq(a: &[u8], b: &[u8]) -> (r: bool)
    ensures
        r == (a@ == b@),
{
    if a.len() != b.len() {
        return false;
    }
    let mut i: usize = 0;
    while i < a.len()
        invariant
            a@.len() == b@.len(),
            i <= a@.len(),
            a@.subrange(0, i as int) == b@.subrange(0, i as int),
        decreases a@.len() - i,
    {
        if a[i] != b[i] {
            return false;
        }
        assert(a@.subrange(0, i + 1) =~= a@.subrange(0, i as int).push(a@[i as int]));
        assert(b@.subrange(0, i + 1) =~= b@.subrange(0, i as int).push(b@[i as int]));
        i = i + 1;
    }
    assert(a@ =~= a@.subrange(0, a@.len() as int));
    assert(b@ =~= b@.subrange(0, b@.len() as int));
    true
}

/// Cuts a stream of XML events into record fragments.
pub struct Extractor {
    tag: Vec<u8>,
    open: Option<Vec<u8>>,
}

impl View for Extractor {
    /// The record element's name, and the fragment being built, if any.
    type V = (Seq<u8>, Option<Seq<u8>>);

    closed spec fn view(&self) -> (Seq<u8>, Option<Seq<u8>>) {
        (
            self.tag@,
            match self.open {
                Some(b) => Some(b@),
                None => None,
            },
        )
    }
}

impl Extractor {
    /// An extractor for records named `tag`, outside any record.
    pub fn new(tag: Vec<u8>) -> (r: Extractor)
        ensures
            r@ == (tag@, None::<Seq<u8>>),
    {
        Extractor { tag, open: None }
    }

    /// Whether a record element is open.
    pub fn in_record(&self) -> (r: bool)
        ensures
            r == (self@.1 is Some),
    {
        self.open.is_some()
    }

    /// Takes one event; hands out a fragment when it closes a record.
    pub fn feed(&mut self, ev: XmlEvent) -> (r: Result<Option<Vec<u8>>, StructuralError>)
        ensures
            final(self)@.0 == old(self)@.0,
            (final(self)@.1, fragment_view(r)) == extract_step(old(self)@.0, old(self)@.1, ev),
    {
        match self.open.take() {
            None => {
                match ev {
                    XmlEvent::Start(n) => {
                        if bytes_eq(n.as_slice(), self.tag.as_slice()) {
                            let mut b: Vec<u8> = Vec::new();
                            push_open_tag(&mut b, self.tag.as_slice());
                            assert(b@ =~= open_tag(self.tag@));
                            self.open = Some(b);
                        }
                        Ok(None)
                    },
                    _ => Ok(None),
                }
            },
            Some(mut b) => {
                match ev {
                    XmlEvent::Text(t) => {
                        push_escaped(&mut b, t.as_slice());
                        self.open = Some(b);
                        Ok(None)
                    },
                    XmlEvent::Start(n) => {
                        push_open_tag(&mut b, n.as_slice());
                        self.open = Some(b);
                        Ok(None)
                    },
                    XmlEvent::End(n) => {
                        if bytes_eq(n.as_slice(), self.tag.as_slice()) {
                            push_close_tag(&mut b, self.tag.as_slice());
                            Ok(Some(b))
                        } else {
                            push_close_tag(&mut b, n.as_slice());
                            self.open = Some(b);
                            Ok(None)
                        }
                    },
                    XmlEvent::Eof => {
                        self.open = Some(b);
                        Err(StructuralError::UnterminatedRecord)
                    },
                    XmlEvent::Other => {
                        self.open = Some(b);
                        Ok(None)
                    },
                }
            },
        }
    }
}

} // verus!
