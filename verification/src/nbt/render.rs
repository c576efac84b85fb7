//! Pretty-printing, up to the text: which lines a tag tree is shown as, in
//! which order, and how far each is indented.
//!
//! A tree is shown with one line for each scalar, and with an opening line,
//! its content one level deeper, and a closing line for each list, array
//! and compound that holds something. Nothing is printed here: the lines
//! are handed out, and showing them is left to the caller.

use vstd::prelude::*;
use vstd::string::StringExecFns;
use crate::nbt::kind::TagKind;
use crate::nbt::text::{
    hexadecimal, hexadecimal_string, signed_decimal, signed_decimal_string,
};
use crate::nbt::tag::{payload_views, tag_views, NbtTag, NbtTree, TagData};
use crate::nbt::value::{NamedValue, TagValue};

verus! {

/// What a line says, apart from its indentation and its name.
#[derive(Debug, PartialEq)]
pub enum LineBody {
    /// A scalar payload with its value; a float or a double with its bits.
    Byte(i8),
    Short(i16),
    Int(i32),
    Long(i64),
    Float(u32),
    Double(u64),
    Text(String),
    /// One element of an array.
    Element(i64),
    /// The opening line of a list, an array or a compound that holds
    /// something.
    Open(TagKind),
    /// The closing line that goes with an opening line.
    Close(TagKind),
    /// The one line of a list, an array or a compound that holds nothing.
    Empty(TagKind),
    /// The line of a payload that cannot be shown.
    Unknown,
}

/// One line: how many levels it is indented, the identifier it starts with
/// where it shows a named tag, and what it says.
#[derive(Debug, PartialEq)]
pub struct Line {
    pub indent: usize,
    pub id: Option<String>,
    pub body: LineBody,
}

/// The model of what a line says.
pub enum BodyView {
    Byte(i8),
    Short(i16),
    Int(i32),
    Long(i64),
    Float(u32),
    Double(u64),
    Text(Seq<char>),
    Element(i64),
    Open(TagKind),
    Close(TagKind),
    Empty(TagKind),
    Unknown,
}

/// The model of a line.
pub struct LineView {
    pub indent: usize,
    pub id: Option<Seq<char>>,
    pub body: BodyView,
}

impl View for LineBody {
    type V = BodyView;

    open spec fn view(&self) -> BodyView {
        match self {
            LineBody::Byte(v) => BodyView::Byte(*v),
            LineBody::Short(v) => BodyView::Short(*v),
            LineBody::Int(v) => BodyView::Int(*v),
            LineBody::Long(v) => BodyView::Long(*v),
            LineBody::Float(bits) => BodyView::Float(*bits),
            LineBody::Double(bits) => BodyView::Double(*bits),
            LineBody::Text(s) => BodyView::Text(s@),
            LineBody::Element(v) => BodyView::Element(*v),
            LineBody::Open(kind) => BodyView::Open(*kind),
            LineBody::Close(kind) => BodyView::Close(*kind),
            LineBody::Empty(kind) => BodyView::Empty(*kind),
            LineBody::Unknown => BodyView::Unknown,
        }
    }
}

impl View for Line {
    type V = LineView;

    open spec fn view(&self) -> LineView {
        LineView {
            indent: self.indent,
            id: match self.id {
                Some(id) => Some(id@),
                None => None,
            },
            body: self.body@,
        }
    }
}

/// The views of the lines in `v`, in order.
pub open spec fn line_views(v: Seq<Line>) -> Seq<LineView> {
    Seq::new(v.len(), |i: int| v[i]@)
}

/// One level deeper than `indent`. The deepest level that can be counted is
/// its own successor.
pub open spec fn deeper(indent: usize) -> usize {
    if indent < usize::MAX {
        (indent + 1) as usize
    } else {
        indent
    }
}

/// The lines of something that holds `content`: one line if it holds
/// nothing, else an opening line, the content, and a closing line.
pub open spec fn bracketed(
    kind: TagKind,
    indent: usize,
    id: Option<Seq<char>>,
    holds: nat,
    content: Seq<LineView>,
) -> Seq<LineView> {
    if holds == 0 {
        seq![LineView { indent, id, body: BodyView::Empty(kind) }]
    } else {
        seq![LineView { indent, id, body: BodyView::Open(kind) }] + content + seq![
            LineView { indent, id: None, body: BodyView::Close(kind) },
        ]
    }
}

/// The lines of the elements of an array, one line each.
pub open spec fn element_lines(values: Seq<int>, indent: usize) -> Seq<LineView> {
    Seq::new(
        values.len(),
        |i: int| LineView { indent, id: None, body: BodyView::Element(values[i] as i64) },
    )
}

/// The lines that show a payload: the first indented by `indent` and
/// starting with `id`, what the payload holds one level deeper.
pub open spec fn payload_lines(v: TagValue, indent: usize, id: Option<Seq<char>>) -> Seq<LineView>
    decreases v,
{
    match v {
        TagValue::End => seq![LineView { indent, id, body: BodyView::Unknown }],
        TagValue::Byte(x) => seq![LineView { indent, id, body: BodyView::Byte(x) }],
        TagValue::Short(x) => seq![LineView { indent, id, body: BodyView::Short(x) }],
        TagValue::Int(x) => seq![LineView { indent, id, body: BodyView::Int(x) }],
        TagValue::Long(x) => seq![LineView { indent, id, body: BodyView::Long(x) }],
        TagValue::Float(bits) => seq![LineView { indent, id, body: BodyView::Float(bits) }],
        TagValue::Double(bits) => seq![LineView { indent, id, body: BodyView::Double(bits) }],
        TagValue::String(s) => seq![LineView { indent, id, body: BodyView::Text(s) }],
        TagValue::ByteArray(a) => bracketed(
            TagKind::ByteArray,
            indent,
            id,
            a.len(),
            element_lines(Seq::new(a.len(), |i: int| a[i] as int), deeper(indent)),
        ),
        TagValue::IntArray(a) => bracketed(
            TagKind::IntArray,
            indent,
            id,
            a.len(),
            element_lines(Seq::new(a.len(), |i: int| a[i] as int), deeper(indent)),
        ),
        TagValue::LongArray(a) => bracketed(
            TagKind::LongArray,
            indent,
            id,
            a.len(),
            element_lines(Seq::new(a.len(), |i: int| a[i] as int), deeper(indent)),
        ),
        TagValue::List(_, elements) => bracketed(
            TagKind::List,
            indent,
            id,
            elements.len(),
            list_lines(elements, deeper(indent), elements.len()),
        ),
        TagValue::Compound(children) => bracketed(
            TagKind::Compound,
            indent,
            id,
            children.len(),
            tag_lines(children, deeper(indent), children.len()),
        ),
    }
}

/// The lines of the first `n` elements of a list.
pub open spec fn list_lines(elements: Seq<TagValue>, indent: usize, n: nat) -> Seq<LineView>
    decreases elements, n,
{
    if n == 0 || n > elements.len() {
        Seq::empty()
    } else {
        list_lines(elements, indent, (n - 1) as nat) + payload_lines(elements[n - 1], indent, None)
    }
}

/// The lines of the first `n` of `tags`, each starting with its
/// identifier.
pub open spec fn tag_lines(tags: Seq<NamedValue>, indent: usize, n: nat) -> Seq<LineView>
    decreases tags, n,
{
    if n == 0 || n > tags.len() {
        Seq::empty()
    } else {
        tag_lines(tags, indent, (n - 1) as nat) + payload_lines(
            tags[n - 1].data,
            indent,
            Some(tags[n - 1].id),
        )
    }
}

/// The lines that show a whole tree: its top-level tags, not indented.
pub open spec fn tree_lines(entries: Seq<NamedValue>) -> Seq<LineView> {
    tag_lines(entries, 0, entries.len())
}

/// One level deeper than `indent`.
fn one_deeper(indent: usize) -> (d: usize)
    ensures
        d == deeper(indent),
{
    if indent < usize::MAX {
        indent + 1
    } else {
        indent
    }
}

/// The view of an identifier that may be there.
pub open spec fn id_view(id: Option<String>) -> Option<Seq<char>> {
    match id {
        Some(id) => Some(id@),
        None => None,
    }
}

/// Puts one line behind those in `out`.
fn push_line(out: &mut Vec<Line>, indent: usize, id: Option<String>, body: LineBody)
    ensures
        line_views(final(out)@) == line_views(old(out)@).push(
            (LineView { indent, id: id_view(id), body: body@ }),
        ),
{
    out.push(Line { indent, id, body });
    assert(line_views(out@) =~= line_views(old(out)@).push(
        LineView { indent, id: id_view(id), body: body@ },
    ));
}

/// Puts the lines of a payload behind those in `out`.
fn append_lines(data: &TagData, indent: usize, id: Option<String>, out: &mut Vec<Line>)
    ensures
        line_views(final(out)@) == line_views(old(out)@) + payload_lines(
            data@,
            indent,
            id_view(id),
        ),
    decreases data,
{
    let ghost start = line_views(out@);
    let ghost name = id_view(id);
    match data {
        TagData::End => push_line(out, indent, id, LineBody::Unknown),
        TagData::Byte(x) => push_line(out, indent, id, LineBody::Byte(*x)),
        TagData::Short(x) => push_line(out, indent, id, LineBody::Short(*x)),
        TagData::Int(x) => push_line(out, indent, id, LineBody::Int(*x)),
        TagData::Long(x) => push_line(out, indent, id, LineBody::Long(*x)),
        TagData::Float(bits) => push_line(out, indent, id, LineBody::Float(*bits)),
        TagData::Double(bits) => push_line(out, indent, id, LineBody::Double(*bits)),
        TagData::String(s) => push_line(out, indent, id, LineBody::Text(s.clone())),
        TagData::ByteArray(a) => {
            if a.len() == 0 {
                push_line(out, indent, id, LineBody::Empty(TagKind::ByteArray));
                return ;
            }
            push_line(out, indent, id, LineBody::Open(TagKind::ByteArray));
            let ghost head = line_views(out@);
            let ghost values = Seq::new(a@.len(), |i: int| a@[i] as int);
            let inner = one_deeper(indent);
            let mut i: usize = 0;
            while i < a.len()
                invariant
                    i <= a@.len(),
                    values == Seq::new(a@.len(), |i: int| a@[i] as int),
                    line_views(out@) == head + element_lines(values, inner).subrange(0, i as int),
                decreases a@.len() - i,
            {
                push_line(out, inner, None, LineBody::Element(a[i] as i64));
                assert(line_views(out@) =~= head + element_lines(values, inner).subrange(
                    0,
                    i + 1,
                ));
                i = i + 1;
            }
            assert(element_lines(values, inner).subrange(0, i as int) =~= element_lines(
                values,
                inner,
            ));
            push_line(out, indent, None, LineBody::Close(TagKind::ByteArray));
            assert(line_views(out@) =~= start + payload_lines(data@, indent, name));
        },
        TagData::IntArray(a) => {
            if a.len() == 0 {
                push_line(out, indent, id, LineBody::Empty(TagKind::IntArray));
                return ;
            }
            push_line(out, indent, id, LineBody::Open(TagKind::IntArray));
            let ghost head = line_views(out@);
            let ghost values = Seq::new(a@.len(), |i: int| a@[i] as int);
            let inner = one_deeper(indent);
            let mut i: usize = 0;
            while i < a.len()
                invariant
                    i <= a@.len(),
                    values == Seq::new(a@.len(), |i: int| a@[i] as int),
                    line_views(out@) == head + element_lines(values, inner).subrange(0, i as int),
                decreases a@.len() - i,
            {
                push_line(out, inner, None, LineBody::Element(a[i] as i64));
                assert(line_views(out@) =~= head + element_lines(values, inner).subrange(
                    0,
                    i + 1,
                ));
                i = i + 1;
            }
            assert(element_lines(values, inner).subrange(0, i as int) =~= element_lines(
                values,
                inner,
            ));
            push_line(out, indent, None, LineBody::Close(TagKind::IntArray));
            assert(line_views(out@) =~= start + payload_lines(data@, indent, name));
        },
        TagData::LongArray(a) => {
            if a.len() == 0 {
                push_line(out, indent, id, LineBody::Empty(TagKind::LongArray));
                return ;
            }
            push_line(out, indent, id, LineBody::Open(TagKind::LongArray));
            let ghost head = line_views(out@);
            let ghost values = Seq::new(a@.len(), |i: int| a@[i] as int);
            let inner = one_deeper(indent);
            let mut i: usize = 0;
            while i < a.len()
                invariant
                    i <= a@.len(),
                    values == Seq::new(a@.len(), |i: int| a@[i] as int),
                    line_views(out@) == head + element_lines(values, inner).subrange(0, i as int),
                decreases a@.len() - i,
            {
                push_line(out, inner, None, LineBody::Element(a[i]));
                assert(line_views(out@) =~= head + element_lines(values, inner).subrange(
                    0,
                    i + 1,
                ));
                i = i + 1;
            }
            assert(element_lines(values, inner).subrange(0, i as int) =~= element_lines(
                values,
                inner,
            ));
            push_line(out, indent, None, LineBody::Close(TagKind::LongArray));
            assert(line_views(out@) =~= start + payload_lines(data@, indent, name));
        },
        TagData::List(kind, elements) => {
            if elements.len() == 0 {
                push_line(out, indent, id, LineBody::Empty(TagKind::List));
                return ;
            }
            push_line(out, indent, id, LineBody::Open(TagKind::List));
            let ghost head = line_views(out@);
            let inner = one_deeper(indent);
            let mut i: usize = 0;
            while i < elements.len()
                invariant
                    *data == TagData::List(*kind, *elements),
                    i <= elements@.len(),
                    line_views(out@) == head + list_lines(payload_views(elements@), inner, i as nat),
                decreases elements@.len() - i,
            {
                proof {
                    assert(decreases_to!(*data => data->List_1));
                    assert(decreases_to!(elements => elements[i as int]));
                }
                append_lines(&elements[i], inner, None, out);
                assert(line_views(out@) =~= head + list_lines(
                    payload_views(elements@),
                    inner,
                    (i + 1) as nat,
                ));
                i = i + 1;
            }
            push_line(out, indent, None, LineBody::Close(TagKind::List));
            assert(line_views(out@) =~= start + payload_lines(data@, indent, name));
        },
        TagData::Compound(children) => {
            if children.len() == 0 {
                push_line(out, indent, id, LineBody::Empty(TagKind::Compound));
                return ;
            }
            push_line(out, indent, id, LineBody::Open(TagKind::Compound));
            let ghost head = line_views(out@);
            let inner = one_deeper(indent);
            let mut i: usize = 0;
            while i < children.len()
                invariant
                    *data == TagData::Compound(*children),
                    i <= children@.len(),
                    line_views(out@) == head + tag_lines(tag_views(children@), inner, i as nat),
                decreases children@.len() - i,
            {
                proof {
                    assert(decreases_to!(*data => data->Compound_0));
                    assert(decreases_to!(children => children[i as int]));
                }
                append_lines(&children[i].data, inner, Some(children[i].id.clone()), out);
                assert(line_views(out@) =~= head + tag_lines(
                    tag_views(children@),
                    inner,
                    (i + 1) as nat,
                ));
                i = i + 1;
            }
            push_line(out, indent, None, LineBody::Close(TagKind::Compound));
            assert(line_views(out@) =~= start + payload_lines(data@, indent, name));
        },
    }
}

impl TagData {
    /// The lines that show this payload, the first indented by `indent`.
    pub fn lines(&self, indent: usize) -> (lines: Vec<Line>)
        ensures
            line_views(lines@) == payload_lines(self@, indent, None),
    {
        let mut out: Vec<Line> = Vec::new();
        assert(line_views(out@) =~= Seq::empty());
        append_lines(self, indent, None, &mut out);
        assert(line_views(out@) =~= payload_lines(self@, indent, None));
        out
    }
}

impl NbtTag {
    /// The lines that show this tag, the first indented by `indent` and
    /// starting with the identifier.
    pub fn lines(&self, indent: usize) -> (lines: Vec<Line>)
        ensures
            line_views(lines@) == payload_lines(self@.data, indent, Some(self@.id)),
    {
        let mut out: Vec<Line> = Vec::new();
        assert(line_views(out@) =~= Seq::empty());
        append_lines(&self.data, indent, Some(self.id.clone()), &mut out);
        assert(line_views(out@) =~= payload_lines(self@.data, indent, Some(self@.id)));
        out
    }
}

impl NbtTree {
    /// The lines that show this tree: its top-level tags, not indented.
    pub fn lines(&self) -> (lines: Vec<Line>)
        ensures
            line_views(lines@) == tree_lines(self@),
    {
        let entries = self.entries();
        let mut out: Vec<Line> = Vec::new();
        assert(line_views(out@) =~= Seq::empty());
        let mut i: usize = 0;
        while i < entries.len()
            invariant
                i <= entries@.len(),
                line_views(out@) == tag_lines(tag_views(entries@), 0, i as nat),
            decreases entries@.len() - i,
        {
            append_lines(&entries[i].data, 0, Some(entries[i].id.clone()), &mut out);
            assert(line_views(out@) =~= tag_lines(tag_views(entries@), 0, (i + 1) as nat));
            i = i + 1;
        }
        out
    }
}

/// The name under which a kind is shown.
pub open spec fn kind_name(kind: TagKind) -> Seq<char> {
    match kind {
        TagKind::End => "TAG_End"@,
        TagKind::Byte => "TAG_Byte"@,
        TagKind::Short => "TAG_Short"@,
        TagKind::Int => "TAG_Int"@,
        TagKind::Long => "TAG_Long"@,
        TagKind::Float => "TAG_Float"@,
        TagKind::Double => "TAG_Double"@,
        TagKind::ByteArray => "TAG_ByteArray"@,
        TagKind::String => "TAG_String"@,
        TagKind::List => "TAG_List"@,
        TagKind::Compound => "TAG_Compound"@,
        TagKind::IntArray => "TAG_IntArray"@,
        TagKind::LongArray => "TAG_LongArray"@,
    }
}

/// The bracket that opens what is of the given kind: a brace for a
/// compound, else a square bracket.
pub open spec fn opening(kind: TagKind) -> Seq<char> {
    if kind == TagKind::Compound {
        "{"@
    } else {
        "["@
    }
}

/// The bracket that closes what is of the given kind.
pub open spec fn closing(kind: TagKind) -> Seq<char> {
    if kind == TagKind::Compound {
        "}"@
    } else {
        "]"@
    }
}

/// The escape sequence that starts the colour of names of kinds.
pub open spec fn name_colour() -> Seq<char> {
    "\x1b[36m"@
}

/// The escape sequence that starts the colour of numbers.
pub open spec fn number_colour() -> Seq<char> {
    "\x1b[33m"@
}

/// The escape sequence that starts the colour of strings.
pub open spec fn string_colour() -> Seq<char> {
    "\x1b[32m"@
}

/// The escape sequence that ends a colour.
pub open spec fn colour_end() -> Seq<char> {
    "\x1b[0m"@
}

/// `text` in the colour that `start` starts, where colour is wanted.
pub open spec fn painted(colour: bool, start: Seq<char>, text: Seq<char>) -> Seq<char> {
    if colour {
        start + text + colour_end()
    } else {
        text
    }
}

/// A line that shows a number under the name of its kind.
pub open spec fn number_text(colour: bool, kind: TagKind, number: Seq<char>) -> Seq<char> {
    painted(colour, name_colour(), kind_name(kind)) + " = "@ + painted(
        colour,
        number_colour(),
        number,
    )
}

/// What a line says, as text. A float and a double are shown by their
/// bits, in hexadecimal.
pub open spec fn body_text(body: BodyView, colour: bool) -> Seq<char> {
    match body {
        BodyView::Byte(v) => number_text(colour, TagKind::Byte, signed_decimal(v as int)),
        BodyView::Short(v) => number_text(colour, TagKind::Short, signed_decimal(v as int)),
        BodyView::Int(v) => number_text(colour, TagKind::Int, signed_decimal(v as int)),
        BodyView::Long(v) => number_text(colour, TagKind::Long, signed_decimal(v as int)),
        BodyView::Float(bits) => number_text(
            colour,
            TagKind::Float,
            "0x"@ + hexadecimal(bits as nat),
        ),
        BodyView::Double(bits) => number_text(
            colour,
            TagKind::Double,
            "0x"@ + hexadecimal(bits as nat),
        ),
        BodyView::Text(s) => painted(colour, name_colour(), kind_name(TagKind::String)) + " = "@
            + painted(colour, string_colour(), "'"@ + s + "'"@),
        BodyView::Element(v) => painted(colour, number_colour(), signed_decimal(v as int)),
        BodyView::Open(kind) => painted(colour, name_colour(), kind_name(kind)) + " = "@ + opening(
            kind,
        ),
        BodyView::Close(kind) => closing(kind),
        BodyView::Empty(kind) => painted(colour, name_colour(), kind_name(kind)) + " = "@
            + opening(kind) + closing(kind),
        BodyView::Unknown => "Unknown Tag"@,
    }
}

/// The blanks before a line that is indented by `indent` levels: two for
/// each level.
pub open spec fn indentation(indent: nat) -> Seq<char>
    decreases indent,
{
    if indent == 0 {
        Seq::empty()
    } else {
        indentation((indent - 1) as nat) + "  "@
    }
}

/// What stands before that which a line says: its indentation, and its
/// identifier with a colon where it has one.
pub open spec fn line_prefix(line: LineView) -> Seq<char> {
    indentation(line.indent as nat) + match line.id {
        Some(id) => id + ": "@,
        None => Seq::empty(),
    }
}

/// A line as text.
pub open spec fn line_text(line: LineView, colour: bool) -> Seq<char> {
    line_prefix(line) + body_text(line.body, colour)
}

/// The name under which a kind is shown.
pub fn name_of(kind: TagKind) -> (name: &'static str)
    ensures
        name@ == kind_name(kind),
{
    match kind {
        TagKind::End => "TAG_End",
        TagKind::Byte => "TAG_Byte",
        TagKind::Short => "TAG_Short",
        TagKind::Int => "TAG_Int",
        TagKind::Long => "TAG_Long",
        TagKind::Float => "TAG_Float",
        TagKind::Double => "TAG_Double",
        TagKind::ByteArray => "TAG_ByteArray",
        TagKind::String => "TAG_String",
        TagKind::List => "TAG_List",
        TagKind::Compound => "TAG_Compound",
        TagKind::IntArray => "TAG_IntArray",
        TagKind::LongArray => "TAG_LongArray",
    }
}

/// Puts `text` behind `out`, in the colour that `start` starts where colour
/// is wanted.
fn push_painted(out: &mut String, colour: bool, start: &str, text: &str)
    ensures
        final(out)@ == old(out)@ + painted(colour, start@, text@),
{
    if colour {
        out.append(start);
        out.append(text);
        out.append("\x1b[0m");
        assert(out@ =~= old(out)@ + painted(colour, start@, text@));
    } else {
        out.append(text);
    }
}

/// Puts the name of a kind behind `out`, and an equals sign.
fn push_name(out: &mut String, colour: bool, kind: TagKind)
    ensures
        final(out)@ == old(out)@ + painted(colour, name_colour(), kind_name(kind)) + " = "@,
{
    push_painted(out, colour, "\x1b[36m", name_of(kind));
    out.append(" = ");
}

/// Puts a number under the name of its kind behind `out`.
fn push_number(out: &mut String, colour: bool, kind: TagKind, number: &str)
    ensures
        final(out)@ == old(out)@ + number_text(colour, kind, number@),
{
    push_name(out, colour, kind);
    push_painted(out, colour, "\x1b[33m", number);
    assert(out@ =~= old(out)@ + number_text(colour, kind, number@));
}

/// The bits of a float or a double as they are shown.
fn bits_string(bits: u64) -> (s: String)
    ensures
        s@ == "0x"@ + hexadecimal(bits as nat),
{
    let mut s = "0x".to_owned();
    s.append(hexadecimal_string(bits).as_str());
    s
}

impl Line {
    /// What stands before that which this line says: two blanks for each
    /// level of indentation, and the identifier with a colon where the line
    /// has one.
    pub fn prefix(&self) -> (text: String)
        ensures
            text@ == line_prefix(self@),
    {
        let mut out = String::new();
        let mut i: usize = 0;
        while i < self.indent
            invariant
                i <= self.indent,
                out@ == indentation(i as nat),
            decreases self.indent - i,
        {
            out.append("  ");
            i = i + 1;
        }
        match &self.id {
            Some(id) => {
                out.append(id.as_str());
                out.append(": ");
                assert(out@ =~= line_prefix(self@));
            },
            None => {
                assert(out@ =~= line_prefix(self@));
            },
        }
        out
    }

    /// This line as text, with escape sequences for colour where colour is
    /// wanted.
    pub fn text(&self, colour: bool) -> (text: String)
        ensures
            text@ == line_text(self@, colour),
    {
        let mut out = self.prefix();
        let ghost before = out@;
        match &self.body {
            LineBody::Byte(v) => {
                push_number(
                    &mut out,
                    colour,
                    TagKind::Byte,
                    signed_decimal_string(*v as i64).as_str(),
                );
            },
            LineBody::Short(v) => {
                push_number(
                    &mut out,
                    colour,
                    TagKind::Short,
                    signed_decimal_string(*v as i64).as_str(),
                );
            },
            LineBody::Int(v) => {
                push_number(
                    &mut out,
                    colour,
                    TagKind::Int,
                    signed_decimal_string(*v as i64).as_str(),
                );
            },
            LineBody::Long(v) => {
                push_number(&mut out, colour, TagKind::Long, signed_decimal_string(*v).as_str());
            },
            LineBody::Float(bits) => {
                push_number(&mut out, colour, TagKind::Float, bits_string(*bits as u64).as_str());
            },
            LineBody::Double(bits) => {
                push_number(&mut out, colour, TagKind::Double, bits_string(*bits).as_str());
            },
            LineBody::Text(s) => {
                push_name(&mut out, colour, TagKind::String);
                let mut quoted = "'".to_owned();
                quoted.append(s.as_str());
                quoted.append("'");
                push_painted(&mut out, colour, "\x1b[32m", quoted.as_str());
                assert(out@ =~= before + body_text(self@.body, colour));
            },
            LineBody::Element(v) => {
                push_painted(&mut out, colour, "\x1b[33m", signed_decimal_string(*v).as_str());
            },
            LineBody::Open(kind) => {
                push_name(&mut out, colour, *kind);
                if *kind == TagKind::Compound {
                    out.append("{");
                } else {
                    out.append("[");
                }
                assert(out@ =~= before + body_text(self@.body, colour));
            },
            LineBody::Close(kind) => {
                if *kind == TagKind::Compound {
                    out.append("}");
                } else {
                    out.append("]");
                }
            },
            LineBody::Empty(kind) => {
                push_name(&mut out, colour, *kind);
                if *kind == TagKind::Compound {
                    out.append("{");
                    out.append("}");
                } else {
                    out.append("[");
                    out.append("]");
                }
                assert(out@ =~= before + body_text(self@.body, colour));
            },
            LineBody::Unknown => {
                out.append("Unknown Tag");
            },
        }
        out
    }
}

/// The name under which a payload with the given kind code is shown, for
/// the kinds that have one.
pub open spec fn tag_label(tag: u8) -> Seq<char> {
    if tag == 1 {
        "TAG_Byte"@
    } else if tag == 2 {
        "TAG_Short"@
    } else if tag == 3 {
        "TAG_Int"@
    } else if tag == 4 {
        "TAG_Long"@
    } else if tag == 5 {
        "TAG_Float"@
    } else if tag == 8 {
        "TAG_String"@
    } else if tag == 9 {
        "TAG_List"@
    } else if tag == 10 {
        "TAG_Compound"@
    } else {
        "unknown_tag"@
    }
}

/// The name under which a payload with the given kind code is shown.
pub fn to_tag_string(tag: u8) -> (label: String)
    ensures
        label@ == tag_label(tag),
{
    let label = match tag {
        1 => "TAG_Byte",
        2 => "TAG_Short",
        3 => "TAG_Int",
        5 => "TAG_Float",
        4 => "TAG_Long",
        8 => "TAG_String",
        9 => "TAG_List",
        10 => "TAG_Compound",
        _ => "unknown_tag",
    };
    label.to_owned()
}

} // verus!
