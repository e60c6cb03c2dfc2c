//! PDF objects, their byte-exact serializer, and the low-level writer that
//! records cross-reference offsets and closes the file with the xref table
//! and trailer.
use vstd::prelude::*;
use crate::chars::{str_to_chars, string_from_chars};

verus! {

/// How one character is escaped inside a PDF literal string: backslash,
/// parentheses get a backslash prefix, everything else is unchanged.
pub open spec fn escape_char(c: char) -> Seq<char> {
    if c == '\\' {
        seq!['\\', '\\']
    } else if c == '(' {
        seq!['\\', '(']
    } else if c == ')' {
        seq!['\\', ')']
    } else {
        seq![c]
    }
}

/// The escaped form of a literal string's characters.
pub open spec fn escape_chars(s: Seq<char>) -> Seq<char>
    decreases s.len(),
{
    if s.len() == 0 {
        s
    } else {
        escape_char(s[0]) + escape_chars(s.drop_first())
    }
}

/// The inverse reading: a backslash takes the following character verbatim.
pub open spec fn unescape_chars(s: Seq<char>) -> Seq<char>
    decreases s.len(),
{
    if s.len() == 0 {
        s
    } else if s[0] == '\\' && s.len() >= 2 {
        seq![s[1]] + unescape_chars(s.skip(2))
    } else {
        seq![s[0]] + unescape_chars(s.drop_first())
    }
}

proof fn lemma_unescape_one(c: char, t: Seq<char>)
    ensures
        unescape_chars(escape_char(c) + t) == seq![c] + unescape_chars(t),
{
    let e = escape_char(c) + t;
    if c == '\\' || c == '(' || c == ')' {
        assert(e[0] == '\\' && e.len() >= 2);
        assert(e[1] == c);
        assert(e.skip(2) =~= t);
    } else {
        assert(e[0] == c);
        assert(e.drop_first() =~= t);
        if c == '\\' {
        } else {
            assert(unescape_chars(e) == seq![c] + unescape_chars(t));
        }
    }
}

/// Escaping of `(`, `)` and `\` in literal strings is reversible: reading
/// the escaped form back yields the original character sequence.
pub proof fn lemma_escape_round_trip(s: Seq<char>)
    ensures
        unescape_chars(escape_chars(s)) == s,
    decreases s.len(),
{
    if s.len() == 0 {
        assert(unescape_chars(escape_chars(s)) =~= s);
    } else {
        lemma_escape_round_trip(s.drop_first());
        lemma_unescape_one(s[0], escape_chars(s.drop_first()));
        assert(unescape_chars(escape_chars(s)) =~= s);
    }
}

/// Escape `\`, `(` and `)` for a PDF literal string.
pub fn escape_string(s: &str) -> (r: String)
    ensures
        r@ == escape_chars(s@),
{
    let cs = str_to_chars(s);
    let mut out: Vec<char> = Vec::new();
    let mut i: usize = 0;
    while i < cs.len()
        invariant
            0 <= i <= cs@.len(),
            cs@ == s@,
            out@ == escape_chars(s@.subrange(0, i as int)),
        decreases cs@.len() - i,
    {
        let c = cs[i];
        if c == '\\' {
            out.push('\\');
            out.push('\\');
        } else if c == '(' {
            out.push('\\');
            out.push('(');
        } else if c == ')' {
            out.push('\\');
            out.push(')');
        } else {
            out.push(c);
        }
        proof {
            lemma_escape_snoc(s@.subrange(0, i as int), s@[i as int]);
            assert(s@.subrange(0, i + 1) =~= s@.subrange(0, i as int).push(s@[i as int]));
            assert(out@ =~= escape_chars(s@.subrange(0, i + 1)));
        }
        i = i + 1;
    }
    proof {
        assert(s@.subrange(0, s@.len() as int) =~= s@);
    }
    string_from_chars(&out)
}

proof fn lemma_escape_snoc(s: Seq<char>, c: char)
    ensures
        escape_chars(s.push(c)) == escape_chars(s) + escape_char(c),
    decreases s.len(),
{
    if s.len() == 0 {
        assert(s.push(c).drop_first() =~= s);
        assert(escape_chars(s.push(c)) =~= escape_chars(s) + escape_char(c));
    } else {
        assert(s.push(c).drop_first() =~= s.drop_first().push(c));
        lemma_escape_snoc(s.drop_first(), c);
        assert(escape_chars(s.push(c)) =~= escape_chars(s) + escape_char(c));
    }
}

/// Undo [`escape_string`], for checking round trips.
pub fn unescape_string(s: &str) -> (r: String)
    ensures
        r@ == unescape_chars(s@),
{
    let cs = str_to_chars(s);
    let mut out: Vec<char> = Vec::new();
    let mut i: usize = 0;
    proof {
        assert(s@.skip(0) =~= s@);
        assert(out@ + unescape_chars(s@) =~= unescape_chars(s@));
    }
    while i < cs.len()
        invariant
            0 <= i <= cs@.len(),
            cs@ == s@,
            unescape_chars(s@) == out@ + unescape_chars(s@.skip(i as int)),
        decreases cs@.len() - i,
    {
        let c = cs[i];
        proof {
            assert(s@.skip(i as int)[0] == s@[i as int]);
        }
        if c == '\\' && i + 1 < cs.len() {
            out.push(cs[i + 1]);
            proof {
                assert(s@.skip(i as int).skip(2) =~= s@.skip(i + 2));
                assert(s@.skip(i as int)[1] == s@[i + 1]);
                assert(unescape_chars(s@) =~= out@ + unescape_chars(s@.skip(i + 2)));
            }
            i = i + 2;
        } else {
            out.push(c);
            proof {
                assert(s@.skip(i as int).drop_first() =~= s@.skip(i + 1));
                assert(unescape_chars(s@) =~= out@ + unescape_chars(s@.skip(i + 1)));
            }
            i = i + 1;
        }
    }
    proof {
        assert(s@.skip(s@.len() as int) =~= Seq::<char>::empty());
        assert(out@ =~= unescape_chars(s@));
    }
    string_from_chars(&out)
}

} // verus!

use crate::fx::fx_ok;
use crate::numfmt::{
    dec_of, dec_i64_of, fx_dec_of, push_u64, push_i64, push_fx, push_lit, lit_bytes,
};
use vstd::string::StrSliceExecFns;
use vstd::utf8::encode_utf8;

verus! {

/// A typed PDF object, as the PDF 1.7 reference defines the direct object
/// kinds. `Real` holds a fixed-point milli-unit value; dictionaries keep
/// their entries in insertion order so output is deterministic.
pub enum PdfObject {
    Null,
    Boolean(bool),
    Integer(i64),
    Real(i64),
    Name(String),
    Text(String),
    Array(Vec<PdfObject>),
    Dictionary(Vec<(String, PdfObject)>),
    Stream(Vec<(String, PdfObject)>, Vec<u8>),
    Reference(u32),
}

/// Values the serializer accepts: any integer, and reals in the
/// fixed-point range, recursively.
pub open spec fn obj_wf(o: PdfObject) -> bool
    decreases o,
{
    match o {
        PdfObject::Integer(_) => true,
        PdfObject::Real(x) => fx_ok(x as int),
        PdfObject::Array(items) => forall|k: int|
            0 <= k < items@.len() ==> obj_wf(#[trigger] items@[k]),
        PdfObject::Dictionary(d) => forall|k: int|
            0 <= k < d@.len() ==> obj_wf(#[trigger] d@[k].1),
        PdfObject::Stream(d, _) => forall|k: int|
            0 <= k < d@.len() ==> obj_wf(#[trigger] d@[k].1),
        _ => true,
    }
}

/// The serialized bytes of an object. Layout follows the PDF syntax:
/// `null`, `true`/`false`, plain decimals, `/Name`, `(escaped)` literal
/// strings, `[a b]` arrays, `<< /K v >>` dictionaries, stream framing with
/// a computed `/Length`, and `n 0 R` references.
pub open spec fn ser_obj(o: PdfObject) -> Seq<u8>
    decreases o,
{
    match o {
        // "null"
        PdfObject::Null => seq![110u8, 117, 108, 108],
        // "true" / "false"
        PdfObject::Boolean(b) => if b {
            seq![116u8, 114, 117, 101]
        } else {
            seq![102u8, 97, 108, 115, 101]
        },
        PdfObject::Integer(i) => dec_i64_of(i as int),
        PdfObject::Real(x) => fx_dec_of(x as int),
        // "/" name
        PdfObject::Name(n) => seq![47u8] + encode_utf8(n@),
        // "(" escaped ")"
        PdfObject::Text(s) => seq![40u8] + encode_utf8(escape_chars(s@)) + seq![41u8],
        // "[" items "]"
        PdfObject::Array(items) => seq![91u8] + ser_items(items@) + seq![93u8],
        // "<<" entries " >>"
        PdfObject::Dictionary(d) => seq![60u8, 60] + ser_entries(d@) + seq![32u8, 62, 62],
        // "<<" entries " /Length n >>\nstream\n" content "\nendstream"
        PdfObject::Stream(d, content) => seq![60u8, 60] + ser_entries(d@) + seq![
            32u8,
            47,
            76,
            101,
            110,
            103,
            116,
            104,
            32,
        ] + dec_of(content@.len()) + seq![32u8, 62, 62, 10, 115, 116, 114, 101, 97, 109, 10]
            + content@ + seq![10u8, 101, 110, 100, 115, 116, 114, 101, 97, 109],
        // id " 0 R"
        PdfObject::Reference(id) => dec_of(id as nat) + seq![32u8, 48, 32, 82],
    }
}

/// Array items, space-separated.
pub open spec fn ser_items(items: Seq<PdfObject>) -> Seq<u8>
    decreases items,
{
    if items.len() == 0 {
        Seq::empty()
    } else if items.len() == 1 {
        ser_obj(items[0])
    } else {
        ser_items(items.drop_last()) + seq![32u8] + ser_obj(items.last())
    }
}

/// Dictionary entries, each written as ` /Key value`.
pub open spec fn ser_entries(entries: Seq<(String, PdfObject)>) -> Seq<u8>
    decreases entries,
{
    if entries.len() == 0 {
        Seq::empty()
    } else {
        ser_entries(entries.drop_last()) + seq![32u8, 47] + encode_utf8(entries.last().0@)
            + seq![32u8] + ser_obj(entries.last().1)
    }
}

/// Append the UTF-8 bytes of a string.
pub fn push_str_bytes(out: &mut Vec<u8>, s: &str)
    ensures
        final(out)@ == old(out)@ + encode_utf8(s@),
{
    let mut b = s.as_bytes_vec();
    out.append(&mut b);
}

/// Copy a character vector.
pub fn clone_bytes_chars(v: &Vec<char>) -> (r: Vec<char>)
    ensures
        r@ == v@,
{
    let mut r: Vec<char> = Vec::new();
    let mut i: usize = 0;
    while i < v.len()
        invariant
            0 <= i <= v@.len(),
            r@ == v@.subrange(0, i as int),
        decreases v@.len() - i,
    {
        r.push(v[i]);
        proof {
            assert(r@ =~= v@.subrange(0, i + 1));
        }
        i = i + 1;
    }
    proof {
        assert(r@ =~= v@);
    }
    r
}

/// Copy a byte vector.
pub fn clone_bytes(v: &Vec<u8>) -> (r: Vec<u8>)
    ensures
        r@ == v@,
{
    let mut r: Vec<u8> = Vec::new();
    let mut i: usize = 0;
    while i < v.len()
        invariant
            0 <= i <= v@.len(),
            r@ == v@.subrange(0, i as int),
        decreases v@.len() - i,
    {
        r.push(v[i]);
        proof {
            assert(r@ =~= v@.subrange(0, i + 1));
        }
        i = i + 1;
    }
    proof {
        assert(r@ =~= v@);
    }
    r
}

impl PdfObject {
    /// Serialize this object, appending its exact byte form.
    pub fn serialize_into(&self, out: &mut Vec<u8>)
        requires
            obj_wf(*self),
        ensures
            final(out)@ == old(out)@ + ser_obj(*self),
        decreases *self,
    {
        match self {
            PdfObject::Null => {
                proof {
                    reveal_strlit("null");
                }
                push_lit(out, "null");
                proof {
                    assert(out@ =~= old(out)@ + ser_obj(*self));
                }
            },
            PdfObject::Boolean(b) => {
                if *b {
                    proof {
                        reveal_strlit("true");
                    }
                    push_lit(out, "true");
                } else {
                    proof {
                        reveal_strlit("false");
                    }
                    push_lit(out, "false");
                }
                proof {
                    assert(out@ =~= old(out)@ + ser_obj(*self));
                }
            },
            PdfObject::Integer(i) => {
                push_i64(out, *i);
            },
            PdfObject::Real(x) => {
                push_fx(out, *x);
            },
            PdfObject::Name(n) => {
                out.push(47);
                push_str_bytes(out, n.as_str());
                proof {
                    assert(out@ =~= old(out)@ + ser_obj(*self));
                }
            },
            PdfObject::Text(s) => {
                out.push(40);
                let esc = escape_string(s.as_str());
                push_str_bytes(out, esc.as_str());
                out.push(41);
                proof {
                    assert(out@ =~= old(out)@ + ser_obj(*self));
                }
            },
            PdfObject::Array(items) => {
                out.push(91);
                let mut i: usize = 0;
                while i < items.len()
                    invariant
                        obj_wf(*self),
                        self is Array,
                        items == self->Array_0,
                        0 <= i <= items@.len(),
                        out@ == old(out)@ + seq![91u8] + ser_items(items@.subrange(0, i as int)),
                    decreases items@.len() - i,
                {
                    if i > 0 {
                        out.push(32);
                    }
                    proof {
                        assert(obj_wf(items@[i as int]));
                    }
                    let item = &items[i];
                    item.serialize_into(out);
                    proof {
                        let pre = items@.subrange(0, i as int);
                        let cur = items@.subrange(0, i + 1);
                        assert(cur.drop_last() =~= pre);
                        assert(cur.last() == items@[i as int]);
                        if i == 0 {
                            assert(cur.len() == 1);
                            assert(cur[0] == items@[0]);
                        }
                        assert(out@ =~= old(out)@ + seq![91u8] + ser_items(cur));
                    }
                    i = i + 1;
                }
                out.push(93);
                proof {
                    assert(items@.subrange(0, items@.len() as int) =~= items@);
                    assert(out@ =~= old(out)@ + ser_obj(*self));
                }
            },
            PdfObject::Dictionary(d) => {
                out.push(60);
                out.push(60);
                serialize_entries(d, out);
                out.push(32);
                out.push(62);
                out.push(62);
                proof {
                    assert(out@ =~= old(out)@ + ser_obj(*self));
                }
            },
            PdfObject::Stream(d, content) => {
                out.push(60);
                out.push(60);
                serialize_entries(d, out);
                proof {
                    reveal_strlit(" /Length ");
                }
                push_lit(out, " /Length ");
                push_u64(out, content.len() as u64);
                proof {
                    reveal_strlit(" >>\nstream\n");
                }
                push_lit(out, " >>\nstream\n");
                let mut c = clone_bytes(content);
                out.append(&mut c);
                proof {
                    reveal_strlit("\nendstream");
                }
                push_lit(out, "\nendstream");
                proof {
                    assert(lit_bytes(" /Length "@) =~= seq![32u8, 47, 76, 101, 110, 103, 116, 104, 32]);
                    assert(lit_bytes(" >>\nstream\n"@) =~= seq![32u8, 62, 62, 10, 115, 116, 114, 101, 97, 109, 10]);
                    assert(lit_bytes("\nendstream"@) =~= seq![10u8, 101, 110, 100, 115, 116, 114, 101, 97, 109]);
                    assert(out@ =~= old(out)@ + ser_obj(*self));
                }
            },
            PdfObject::Reference(id) => {
                push_u64(out, *id as u64);
                proof {
                    reveal_strlit(" 0 R");
                }
                push_lit(out, " 0 R");
                proof {
                    assert(lit_bytes(" 0 R"@) =~= seq![32u8, 48, 32, 82]);
                    assert(out@ =~= old(out)@ + ser_obj(*self));
                }
            },
        }
    }
}

fn serialize_entries(d: &Vec<(String, PdfObject)>, out: &mut Vec<u8>)
    requires
        forall|k: int| 0 <= k < d@.len() ==> obj_wf(#[trigger] d@[k].1),
    ensures
        final(out)@ == old(out)@ + ser_entries(d@),
    decreases d@,
{
    let mut i: usize = 0;
    while i < d.len()
        invariant
            forall|k: int| 0 <= k < d@.len() ==> obj_wf(#[trigger] d@[k].1),
            0 <= i <= d@.len(),
            out@ == old(out)@ + ser_entries(d@.subrange(0, i as int)),
        decreases d@.len() - i,
    {
        out.push(32);
        out.push(47);
        let entry = &d[i];
        push_str_bytes(out, entry.0.as_str());
        out.push(32);
        entry.1.serialize_into(out);
        proof {
            let pre = d@.subrange(0, i as int);
            let cur = d@.subrange(0, i + 1);
            assert(cur.drop_last() =~= pre);
            assert(cur.last() == d@[i as int]);
            assert(out@ =~= old(out)@ + ser_entries(cur));
        }
        i = i + 1;
    }
    proof {
        assert(d@.subrange(0, d@.len() as int) =~= d@);
    }
}

} // verus!

use crate::numfmt::{pad10_of, push_pad10};
use vstd::multiset::Multiset;

verus! {

/// The file prologue: `%PDF-1.7` and a comment of four bytes above 0x80,
/// which marks the file as binary for readers that sniff.
pub open spec fn header_bytes() -> Seq<u8> {
    seq![37u8, 80, 68, 70, 45, 49, 46, 55, 10, 37, 0x93, 0x8C, 0x8B, 0x9E, 10]
}

/// `id 0 obj\n`
pub open spec fn obj_header(id: u32) -> Seq<u8> {
    dec_of(id as nat) + seq![32u8, 48, 32, 111, 98, 106, 10]
}

/// `\nendobj\n`
pub open spec fn obj_footer() -> Seq<u8> {
    seq![10u8, 101, 110, 100, 111, 98, 106, 10]
}

/// The full byte record of one indirect object.
pub open spec fn obj_record(id: u32, o: PdfObject) -> Seq<u8> {
    obj_header(id) + ser_obj(o) + obj_footer()
}

/// The concatenated records of a written-object log.
pub open spec fn records_of(objs: Seq<(u32, PdfObject)>) -> Seq<u8>
    decreases objs.len(),
{
    if objs.len() == 0 {
        Seq::empty()
    } else {
        records_of(objs.drop_last()) + obj_record(objs.last().0, objs.last().1)
    }
}

/// One xref table line: a ten-digit offset, generation 00000, in use.
pub open spec fn xref_entry_bytes(e: (u32, u64)) -> Seq<u8> {
    pad10_of(e.1 as nat) + seq![32u8, 48, 48, 48, 48, 48, 32, 110, 32, 10]
}

/// All xref table lines, in table order.
pub open spec fn xref_entries_bytes(entries: Seq<(u32, u64)>) -> Seq<u8>
    decreases entries.len(),
{
    if entries.len() == 0 {
        Seq::empty()
    } else {
        xref_entries_bytes(entries.drop_last()) + xref_entry_bytes(entries.last())
    }
}

/// Entry zero of the table: `0000000000 65535 f `.
pub open spec fn free_entry_bytes() -> Seq<u8> {
    pad10_of(0) + seq![32u8, 54, 53, 53, 51, 53, 32, 102, 32, 10]
}

/// The closing section: xref table, trailer dictionary with `/Size` and
/// `/Root`, `startxref` with the table's byte offset, and `%%EOF`.
pub open spec fn xref_block(entries: Seq<(u32, u64)>, start: nat, root_id: u32) -> Seq<u8> {
    seq![120u8, 114, 101, 102, 10]  // "xref\n"
    + seq![48u8, 32] + dec_of(entries.len() + 1) + seq![10u8]  // "0 N\n"
    + free_entry_bytes() + xref_entries_bytes(entries) + seq![
        116u8,
        114,
        97,
        105,
        108,
        101,
        114,
        10,
    ]  // "trailer\n"
    + seq![60u8, 60, 32, 47, 83, 105, 122, 101, 32] + dec_of(entries.len() + 1)  // "<< /Size N"
    + seq![32u8, 47, 82, 111, 111, 116, 32] + dec_of(root_id as nat) + seq![
        32u8,
        48,
        32,
        82,
        32,
        62,
        62,
    ]  // " /Root r 0 R >>"
    + seq![10u8, 115, 116, 97, 114, 116, 120, 114, 101, 102, 10]  // "\nstartxref\n"
    + dec_of(start) + seq![10u8] + seq![37u8, 37, 69, 79, 70, 10]  // "%%EOF\n"
}

/// One recorded offset points at the header bytes of its object: the bytes
/// at `e.1` read `id 0 obj`.
pub open spec fn xref_entry_ok(buf: Seq<u8>, e: (u32, u64)) -> bool {
    &&& e.1 + obj_header(e.0).len() <= buf.len()
    &&& buf.subrange(e.1 as int, e.1 + obj_header(e.0).len()) == obj_header(e.0)
}

/// The output ends with `%%EOF` and a newline.
pub open spec fn trailer_ok(bytes: Seq<u8>) -> bool {
    &&& bytes.len() >= 6
    &&& bytes.subrange(bytes.len() - 6, bytes.len() as int) == seq![37u8, 37, 69, 79, 70, 10]
}

/// Entries are in ascending id order.
pub open spec fn sorted_by_id(s: Seq<(u32, u64)>) -> bool {
    forall|i: int, j: int| 0 <= i < j < s.len() ==> s[i].0 <= s[j].0
}

/// The low-level PDF writer: an output buffer, the recorded cross-reference
/// entries, and a ghost log of every object written, for stating what the
/// document layer emitted.
pub struct PdfWriter {
    pub buf: Vec<u8>,
    pub xref: Vec<(u32, u64)>,
    pub objects: Ghost<Seq<(u32, PdfObject)>>,
}

impl PdfWriter {
    /// Every xref entry points at its object's first byte.
    pub open spec fn xref_ok(self) -> bool {
        forall|k: int|
            0 <= k < self.xref@.len() ==> xref_entry_ok(self.buf@, #[trigger] self.xref@[k])
    }

    /// Writer invariant: header in place, xref accurate, the ghost object
    /// log aligned with the table, and a size bound that keeps counts small.
    pub open spec fn wf(self) -> bool {
        &&& self.buf@.len() >= 15
        &&& self.buf@.subrange(0, 15) == header_bytes()
        &&& self.xref_ok()
        &&& self.objects@.len() == self.xref@.len()
        &&& 15 + 16 * self.xref@.len() <= self.buf@.len()
    }

    /// Start a writer: emit the header.
    pub fn new() -> (w: PdfWriter)
        ensures
            w.wf(),
            w.buf@ == header_bytes(),
            w.xref@ == Seq::<(u32, u64)>::empty(),
            w.objects@ == Seq::<(u32, PdfObject)>::empty(),
    {
        let mut buf: Vec<u8> = Vec::new();
        buf.push(37);
        buf.push(80);
        buf.push(68);
        buf.push(70);
        buf.push(45);
        buf.push(49);
        buf.push(46);
        buf.push(55);
        buf.push(10);
        buf.push(37);
        buf.push(0x93);
        buf.push(0x8C);
        buf.push(0x8B);
        buf.push(0x9E);
        buf.push(10);
        proof {
            assert(buf@ =~= header_bytes());
            assert(buf@.subrange(0, 15) =~= header_bytes());
        }
        PdfWriter { buf, xref: Vec::new(), objects: Ghost(Seq::empty()) }
    }

    /// Append `id 0 obj`, the object, `endobj`, and record the offset of
    /// the leading byte of `id` for the xref table.
    pub fn write_object(&mut self, id: u32, object: &PdfObject)
        requires
            old(self).wf(),
            obj_wf(*object),
        ensures
            final(self).wf(),
            final(self).buf@ == old(self).buf@ + obj_record(id, *object),
            final(self).xref@ == old(self).xref@.push((id, old(self).buf@.len() as u64)),
            final(self).objects@ == old(self).objects@.push((id, *object)),
            old(self).buf@ == header_bytes() + records_of(old(self).objects@)
                ==> final(self).buf@ == header_bytes() + records_of(final(self).objects@),
    {
        let off = self.buf.len() as u64;
        self.xref.push((id, off));
        push_u64(&mut self.buf, id as u64);
        proof {
            reveal_strlit(" 0 obj\n");
        }
        push_lit(&mut self.buf, " 0 obj\n");
        object.serialize_into(&mut self.buf);
        proof {
            reveal_strlit("\nendobj\n");
        }
        push_lit(&mut self.buf, "\nendobj\n");
        proof {
            self.objects@ = self.objects@.push((id, *object));
        }
        proof {
            assert(lit_bytes(" 0 obj\n"@) =~= seq![32u8, 48, 32, 111, 98, 106, 10]);
            assert(lit_bytes("\nendobj\n"@) =~= seq![10u8, 101, 110, 100, 111, 98, 106, 10]);
            assert(self.buf@ =~= old(self).buf@ + obj_record(id, *object));
            assert(self.buf@.subrange(0, 15) =~= old(self).buf@.subrange(0, 15));
            assert forall|k: int| 0 <= k < self.xref@.len() implies xref_entry_ok(
                self.buf@,
                #[trigger] self.xref@[k],
            ) by {
                let e = self.xref@[k];
                if k < old(self).xref@.len() {
                    assert(xref_entry_ok(old(self).buf@, e));
                    assert(self.buf@.subrange(e.1 as int, e.1 + obj_header(e.0).len())
                        =~= old(self).buf@.subrange(e.1 as int, e.1 + obj_header(e.0).len()));
                } else {
                    assert(e == (id, old(self).buf@.len() as u64));
                    assert(self.buf@.subrange(e.1 as int, e.1 + obj_header(e.0).len())
                        =~= obj_header(id));
                }
            }
            assert(dec_of(id as nat).len() >= 1);
            if old(self).buf@ == header_bytes() + records_of(old(self).objects@) {
                assert(self.objects@.drop_last() =~= old(self).objects@);
                assert(self.buf@ =~= header_bytes() + records_of(self.objects@));
            }
        }
    }
}

} // verus!

verus! {

/// Sort cross-reference entries by object id (selection sort), keeping
/// exactly the same entries.
fn sort_xref(v: &mut Vec<(u32, u64)>)
    ensures
        final(v)@.len() == old(v)@.len(),
        final(v)@.to_multiset() == old(v)@.to_multiset(),
        sorted_by_id(final(v)@),
        forall|k: int|
            0 <= k < final(v)@.len() ==> old(v)@.contains(#[trigger] final(v)@[k]),
{
    broadcast use vstd::seq_lib::group_to_multiset_ensures;
    broadcast use vstd::multiset::group_multiset_axioms;

    let ghost orig = v@;
    let mut src: Vec<(u32, u64)> = Vec::new();
    core::mem::swap(&mut src, v);
    while src.len() > 0
        invariant
            v@.to_multiset().add(src@.to_multiset()) =~= orig.to_multiset(),
            v@.len() + src@.len() == orig.len(),
            sorted_by_id(v@),
            forall|i: int, j: int|
                0 <= i < v@.len() && 0 <= j < src@.len() ==> (#[trigger] v@[i]).0 <= (
                #[trigger] src@[j]).0,
            forall|k: int| 0 <= k < v@.len() ==> orig.contains(#[trigger] v@[k]),
            forall|k: int| 0 <= k < src@.len() ==> orig.contains(#[trigger] src@[k]),
        decreases src@.len(),
    {
        // Find the index of a minimal id.
        let mut m: usize = 0;
        let mut i: usize = 1;
        while i < src.len()
            invariant
                0 <= m < i <= src@.len(),
                src@.len() > 0,
                forall|k: int| 0 <= k < i ==> src@[m as int].0 <= (#[trigger] src@[k]).0,
            decreases src@.len() - i,
        {
            if src[i].0 < src[m].0 {
                m = i;
            }
            i = i + 1;
        }
        let ghost src0 = src@;
        let ghost v0 = v@;
        let x = src.remove(m);
        v.push(x);
        proof {
            assert(orig.contains(x));
            vstd::seq_lib::to_multiset_remove(src0, m as int);
            vstd::seq_lib::to_multiset_build(v0, x);
            assert(src@.to_multiset() =~= src0.to_multiset().remove(x));
            assert(v@.to_multiset() =~= v0.to_multiset().insert(x));
            assert(src0[m as int] == x);
            assert(src0.contains(x));
            vstd::seq_lib::to_multiset_contains(src0, x);
            assert(src0.to_multiset().count(x) > 0);
            assert forall|y: (u32, u64)| v@.to_multiset().add(src@.to_multiset()).count(y)
                == orig.to_multiset().count(y) by {
                assert(v0.to_multiset().add(src0.to_multiset()).count(y)
                    == orig.to_multiset().count(y));
            }
            assert(v@.to_multiset().add(src@.to_multiset()) =~= orig.to_multiset());
        }
    }
    proof {
        assert(src@.to_multiset() =~= Multiset::<(u32, u64)>::empty());
        assert(v@.to_multiset() =~= orig.to_multiset());
    }
}

impl PdfWriter {
    /// Sort the table by id, then append the xref section, the trailer
    /// with `/Size` and `/Root`, `startxref` with the table's offset, and
    /// `%%EOF`. The buffer then ends the file.
    #[verifier::rlimit(100)]
    pub fn write_xref_and_trailer(&mut self, root_id: u32)
        requires
            old(self).wf(),
        ensures
            final(self).wf(),
            final(self).xref@.len() == old(self).xref@.len(),
            final(self).xref@.to_multiset() == old(self).xref@.to_multiset(),
            sorted_by_id(final(self).xref@),
            final(self).objects@ == old(self).objects@,
            final(self).buf@ == old(self).buf@ + xref_block(
                final(self).xref@,
                old(self).buf@.len() as nat,
                root_id,
            ),
            trailer_ok(final(self).buf@),
    {
        let start = self.buf.len() as u64;
        let ghost oldbuf = self.buf@;
        let ghost oldobjects = self.objects@;
        sort_xref(&mut self.xref);
        proof {
            // The sorted entries still point at their objects: each one was
            // already recorded, and the buffer has not changed.
            assert forall|k: int| 0 <= k < self.xref@.len() implies xref_entry_ok(
                self.buf@,
                #[trigger] self.xref@[k],
            ) by {
                let e = self.xref@[k];
                assert(old(self).xref@.contains(e));
                let j = choose|j: int| 0 <= j < old(self).xref@.len() && old(self).xref@[j] == e;
                assert(xref_entry_ok(self.buf@, old(self).xref@[j]));
            }
        }
        let ghost sorted = self.xref@;
        proof {
            reveal_strlit("xref\n0 ");
        }
        push_lit(&mut self.buf, "xref\n0 ");
        let n: u64 = self.xref.len() as u64;
        push_u64(&mut self.buf, n + 1);
        self.buf.push(10);
        // Entry 0 is the head of the free list: generation 65535, flag f.
        push_pad10(&mut self.buf, 0);
        proof {
            reveal_strlit(" 65535 f \n");
        }
        push_lit(&mut self.buf, " 65535 f \n");
        let ghost upto_free = self.buf@;
        let mut k: usize = 0;
        while k < self.xref.len()
            invariant
                0 <= k <= self.xref@.len(),
                self.xref@ == sorted,
                self.objects@ == oldobjects,
                self.buf@ == upto_free + xref_entries_bytes(sorted.subrange(0, k as int)),
            decreases self.xref@.len() - k,
        {
            let e = self.xref[k];
            push_pad10(&mut self.buf, e.1);
            proof {
                reveal_strlit(" 00000 n \n");
            }
            push_lit(&mut self.buf, " 00000 n \n");
            proof {
                let pre = sorted.subrange(0, k as int);
                let cur = sorted.subrange(0, k + 1);
                assert(cur.drop_last() =~= pre);
                assert(cur.last() == sorted[k as int]);
                assert(lit_bytes(" 00000 n \n"@) =~= seq![
                    32u8,
                    48,
                    48,
                    48,
                    48,
                    48,
                    32,
                    110,
                    32,
                    10,
                ]);
                assert(self.buf@ =~= upto_free + xref_entries_bytes(cur));
            }
            k = k + 1;
        }
        proof {
            reveal_strlit("trailer\n<< /Size ");
        }
        push_lit(&mut self.buf, "trailer\n<< /Size ");
        push_u64(&mut self.buf, n + 1);
        proof {
            reveal_strlit(" /Root ");
        }
        push_lit(&mut self.buf, " /Root ");
        push_u64(&mut self.buf, root_id as u64);
        proof {
            reveal_strlit(" 0 R >>\nstartxref\n");
        }
        push_lit(&mut self.buf, " 0 R >>\nstartxref\n");
        push_u64(&mut self.buf, start);
        self.buf.push(10);
        proof {
            reveal_strlit("%%EOF\n");
        }
        push_lit(&mut self.buf, "%%EOF\n");
        proof {
            assert(sorted.subrange(0, sorted.len() as int) =~= sorted);
            assert(lit_bytes("xref\n0 "@) =~= seq![120u8, 114, 101, 102, 10] + seq![48u8, 32]);
            assert(lit_bytes(" 65535 f \n"@) =~= seq![32u8, 54, 53, 53, 51, 53, 32, 102, 32, 10]);
            assert(lit_bytes("trailer\n<< /Size "@) =~= seq![116u8, 114, 97, 105, 108, 101, 114, 10]
                + seq![60u8, 60, 32, 47, 83, 105, 122, 101, 32]);
            assert(lit_bytes(" /Root "@) =~= seq![32u8, 47, 82, 111, 111, 116, 32]);
            assert(lit_bytes(" 0 R >>\nstartxref\n"@) =~= seq![32u8, 48, 32, 82, 32, 62, 62] + seq![
                10u8,
                115,
                116,
                97,
                114,
                116,
                120,
                114,
                101,
                102,
                10,
            ]);
            assert(lit_bytes("%%EOF\n"@) =~= seq![37u8, 37, 69, 79, 70, 10]);
            assert(self.buf@ =~= oldbuf + xref_block(sorted, oldbuf.len() as nat, root_id));
            assert(self.buf@.subrange(0, 15) =~= oldbuf.subrange(0, 15));
            assert(self.buf@.subrange(self.buf@.len() - 6, self.buf@.len() as int) =~= seq![
                37u8,
                37,
                69,
                79,
                70,
                10,
            ]);
            assert forall|kk: int| 0 <= kk < self.xref@.len() implies xref_entry_ok(
                self.buf@,
                #[trigger] self.xref@[kk],
            ) by {
                let e = self.xref@[kk];
                assert(xref_entry_ok(oldbuf, e));
                assert(self.buf@.subrange(e.1 as int, e.1 + obj_header(e.0).len())
                    =~= oldbuf.subrange(e.1 as int, e.1 + obj_header(e.0).len()));
            }
        }
    }
}

} // verus!
