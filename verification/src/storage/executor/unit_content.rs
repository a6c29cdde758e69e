//! The contents that callers store, and their binary form.
//!
//! A content is written as one byte that tells its kind, followed by what the
//! kind carries: nothing, one byte for a truth value, the eight bytes of a
//! number, a text, or a count followed by that many contents or that many
//! pairs of a name and a content.
use crate::storage::kvkey::append_bytes;
use crate::utils::text::{
    lemma_take_text_bounds, lemma_text_round_trip, put_text, spec_take_text, spec_text_field,
    take_text,
};
use crate::utils::varint::{
    lemma_decode_extend, lemma_varint_round_trip, spec_varint_decode, spec_varint_encode,
    varint_decode, varint_encode,
};
use vstd::bytes::{
    lemma_auto_spec_u64_to_from_le_bytes, spec_u64_from_le_bytes, spec_u64_to_le_bytes,
    u64_from_le_bytes, u64_to_le_bytes,
};
use vstd::prelude::*;
use vstd::slice::slice_subrange;
use vstd::string::*;
use vstd::utf8::encode_utf8;

verus! {

pub const TAG_NIL: u8 = 0x00;

pub const TAG_BOOL: u8 = 0x01;

pub const TAG_FLOAT64: u8 = 0x02;

pub const TAG_STRING: u8 = 0x03;

pub const TAG_ARRAY: u8 = 0x04;

pub const TAG_MAP: u8 = 0x05;

/// A content.
#[derive(Debug, PartialEq, Eq)]
pub enum UnitContent {
    /// Nothing.
    Nil,
    /// A truth value.
    Bool(bool),
    /// A number, held as the 64 bits of its IEEE-754 form.
    Float64(u64),
    /// A text.
    Text(String),
    /// Contents in a row.
    Array(Vec<UnitContent>),
    /// Contents under names, in the order in which they are written.
    Fields(Vec<(String, UnitContent)>),
}

/// A content as a mathematical value.
pub enum ContentView {
    Nil,
    Bool(bool),
    Float64(u64),
    Text(Seq<char>),
    Array(Seq<ContentView>),
    Fields(Seq<(Seq<char>, ContentView)>),
}

/// Why bytes are not a content.
#[derive(Debug, Clone, Copy, PartialEq, Eq, Structural)]
pub enum UnitContentError {
    /// The first byte stands for no kind of content.
    UnexpectedTypeTag,
    /// The bytes behind the first are not what the kind carries.
    MalformedPayload,
}

impl UnitContentError {
    /// The name of the error.
    pub open spec fn spec_text(self) -> Seq<char> {
        match self {
            UnitContentError::UnexpectedTypeTag => "UnitContentError::UnexpectedTypeTag"@,
            UnitContentError::MalformedPayload => "UnitContentError::MalformedPayload"@,
        }
    }

    /// The name of the error.
    pub fn to_string(&self) -> (text: String)
        ensures
            text@ == self.spec_text(),
    {
        match self {
            UnitContentError::UnexpectedTypeTag => String::from_str(
                "UnitContentError::UnexpectedTypeTag",
            ),
            UnitContentError::MalformedPayload => String::from_str(
                "UnitContentError::MalformedPayload",
            ),
        }
    }
}

/// The content `content` as a mathematical value.
pub open spec fn content_view(content: UnitContent) -> ContentView
    decreases content,
{
    match content {
        UnitContent::Nil => ContentView::Nil,
        UnitContent::Bool(b) => ContentView::Bool(b),
        UnitContent::Float64(bits) => ContentView::Float64(bits),
        UnitContent::Text(text) => ContentView::Text(text@),
        UnitContent::Array(items) => ContentView::Array(content_views(items@)),
        UnitContent::Fields(fields) => ContentView::Fields(field_views(fields@)),
    }
}

/// The contents `items` as mathematical values.
pub open spec fn content_views(items: Seq<UnitContent>) -> Seq<ContentView>
    decreases items,
{
    if items.len() == 0 {
        Seq::empty()
    } else {
        content_views(items.drop_last()).push(content_view(items.last()))
    }
}

/// The named contents `fields` as mathematical values.
pub open spec fn field_views(fields: Seq<(String, UnitContent)>) -> Seq<(Seq<char>, ContentView)>
    decreases fields,
{
    if fields.len() == 0 {
        Seq::empty()
    } else {
        field_views(fields.drop_last()).push((fields.last().0@, content_view(fields.last().1)))
    }
}

/// There are as many views as contents, and each is the view of the content
/// in its place.
pub proof fn lemma_content_views(items: Seq<UnitContent>)
    ensures
        content_views(items).len() == items.len(),
        forall|i: int| 0 <= i < items.len() ==> content_views(items)[i] == content_view(items[i]),
    decreases items.len(),
{
    if items.len() > 0 {
        lemma_content_views(items.drop_last());
    }
}

/// There are as many views as named contents, and each is the view of the
/// named content in its place.
pub proof fn lemma_field_views(fields: Seq<(String, UnitContent)>)
    ensures
        field_views(fields).len() == fields.len(),
        forall|i: int|
            0 <= i < fields.len() ==> field_views(fields)[i] == (
                fields[i].0@,
                content_view(fields[i].1),
            ),
    decreases fields.len(),
{
    if fields.len() > 0 {
        lemma_field_views(fields.drop_last());
    }
}

impl UnitContent {
    /// The content as a mathematical value.
    pub open spec fn view(&self) -> ContentView {
        content_view(*self)
    }
}

/// The binary form of a content.
pub open spec fn spec_marshal_content(content: ContentView) -> Seq<u8>
    decreases content,
{
    match content {
        ContentView::Nil => seq![TAG_NIL],
        ContentView::Bool(b) => seq![
            TAG_BOOL,
            if b {
                1u8
            } else {
                0u8
            },
        ],
        ContentView::Float64(bits) => seq![TAG_FLOAT64] + spec_u64_to_le_bytes(bits),
        ContentView::Text(text) => seq![TAG_STRING] + spec_text_field(text),
        ContentView::Array(items) => seq![TAG_ARRAY] + spec_varint_encode(items.len())
            + spec_marshal_items(items),
        ContentView::Fields(fields) => seq![TAG_MAP] + spec_varint_encode(fields.len())
            + spec_marshal_fields(fields),
    }
}

/// The binary forms of contents, one behind the other.
pub open spec fn spec_marshal_items(items: Seq<ContentView>) -> Seq<u8>
    decreases items,
{
    if items.len() == 0 {
        Seq::empty()
    } else {
        spec_marshal_items(items.drop_last()) + spec_marshal_content(items.last())
    }
}

/// The binary forms of named contents, one behind the other: each name as a
/// text, followed by its content.
pub open spec fn spec_marshal_fields(fields: Seq<(Seq<char>, ContentView)>) -> Seq<u8>
    decreases fields,
{
    if fields.len() == 0 {
        Seq::empty()
    } else {
        spec_marshal_fields(fields.drop_last()) + spec_text_field(fields.last().0)
            + spec_marshal_content(fields.last().1)
    }
}

/// What a failed step makes of a parse, and what a step that read `items` from
/// `used` bytes makes of what the steps behind it read.
pub open spec fn joined<T>(
    items: Seq<T>,
    used: nat,
    rest: Result<(Seq<T>, nat), UnitContentError>,
) -> Result<(Seq<T>, nat), UnitContentError> {
    match rest {
        Ok((more, further)) => Ok((items + more, (used + further) as nat)),
        Err(e) => Err(e),
    }
}

/// What parsing makes of `buf`: the content at its front and the count of
/// bytes the content takes, or the reason there is none.
pub open spec fn spec_parse_content(buf: Seq<u8>) -> Result<(ContentView, nat), UnitContentError>
    decreases buf.len(), 0nat,
{
    if buf.len() == 0 {
        Err(UnitContentError::MalformedPayload)
    } else {
        let tag = buf[0];
        let body = buf.skip(1);
        if tag == TAG_NIL {
            Ok((ContentView::Nil, 1))
        } else if tag == TAG_BOOL {
            if body.len() >= 1 && body[0] == 0 {
                Ok((ContentView::Bool(false), 2))
            } else if body.len() >= 1 && body[0] == 1 {
                Ok((ContentView::Bool(true), 2))
            } else {
                Err(UnitContentError::MalformedPayload)
            }
        } else if tag == TAG_FLOAT64 {
            if body.len() >= 8 {
                Ok((ContentView::Float64(spec_u64_from_le_bytes(body.take(8))), 9))
            } else {
                Err(UnitContentError::MalformedPayload)
            }
        } else if tag == TAG_STRING {
            match spec_take_text(body) {
                Some((text, used)) => Ok((ContentView::Text(text), (1 + used) as nat)),
                None => Err(UnitContentError::MalformedPayload),
            }
        } else if tag == TAG_ARRAY {
            match spec_varint_decode(body) {
                Ok((count, used)) => if used <= body.len() {
                    match spec_parse_items(body.skip(used as int), count as nat) {
                        Ok((items, more)) => Ok(
                            (ContentView::Array(items), (1 + used + more) as nat),
                        ),
                        Err(e) => Err(e),
                    }
                } else {
                    Err(UnitContentError::MalformedPayload)
                },
                Err(_) => Err(UnitContentError::MalformedPayload),
            }
        } else if tag == TAG_MAP {
            match spec_varint_decode(body) {
                Ok((count, used)) => if used <= body.len() {
                    match spec_parse_fields(body.skip(used as int), count as nat) {
                        Ok((fields, more)) => Ok(
                            (ContentView::Fields(fields), (1 + used + more) as nat),
                        ),
                        Err(e) => Err(e),
                    }
                } else {
                    Err(UnitContentError::MalformedPayload)
                },
                Err(_) => Err(UnitContentError::MalformedPayload),
            }
        } else {
            Err(UnitContentError::UnexpectedTypeTag)
        }
    }
}

/// Reads `count` contents from the front of `buf`, one behind the other.
pub open spec fn spec_parse_items(buf: Seq<u8>, count: nat) -> Result<
    (Seq<ContentView>, nat),
    UnitContentError,
>
    decreases buf.len(), count + 1,
{
    if count == 0 {
        Ok((Seq::empty(), 0))
    } else {
        match spec_parse_content(buf) {
            Ok((first, used)) => if used <= buf.len() {
                joined(
                    seq![first],
                    used,
                    spec_parse_items(buf.skip(used as int), (count - 1) as nat),
                )
            } else {
                Err(UnitContentError::MalformedPayload)
            },
            Err(e) => Err(e),
        }
    }
}

/// Reads one named content from the front of `buf`: the name as a text, then
/// the content.
pub open spec fn spec_parse_field(buf: Seq<u8>) -> Result<
    ((Seq<char>, ContentView), nat),
    UnitContentError,
>
    decreases buf.len(), 0nat,
{
    match spec_take_text(buf) {
        Some((name, used)) => if 1 <= used <= buf.len() {
            match spec_parse_content(buf.skip(used as int)) {
                Ok((content, more)) => Ok(((name, content), (used + more) as nat)),
                Err(e) => Err(e),
            }
        } else {
            Err(UnitContentError::MalformedPayload)
        },
        None => Err(UnitContentError::MalformedPayload),
    }
}

/// Reads `count` named contents from the front of `buf`, one behind the
/// other.
pub open spec fn spec_parse_fields(buf: Seq<u8>, count: nat) -> Result<
    (Seq<(Seq<char>, ContentView)>, nat),
    UnitContentError,
>
    decreases buf.len(), count + 1,
{
    if count == 0 {
        Ok((Seq::empty(), 0))
    } else {
        match spec_parse_field(buf) {
            Ok((first, used)) => if used <= buf.len() {
                joined(
                    seq![first],
                    used,
                    spec_parse_fields(buf.skip(used as int), (count - 1) as nat),
                )
            } else {
                Err(UnitContentError::MalformedPayload)
            },
            Err(e) => Err(e),
        }
    }
}

impl UnitContent {
    /// Writes the content in its binary form.
    pub fn marshal(&self) -> (out: Vec<u8>)
        ensures
            out@ == spec_marshal_content(self@),
            content_legal(self@),
            spec_parse_content(out@) == Ok::<(ContentView, nat), UnitContentError>(
                (self@, out@.len()),
            ),
        decreases self,
    {
        let mut out: Vec<u8> = Vec::new();
        match self {
            UnitContent::Nil => {
                out.push(TAG_NIL);
            },
            UnitContent::Bool(b) => {
                out.push(TAG_BOOL);
                out.push(
                    if *b {
                        1
                    } else {
                        0
                    },
                );
            },
            UnitContent::Float64(bits) => {
                out.push(TAG_FLOAT64);
                let bytes = u64_to_le_bytes(*bits);
                append_bytes(&mut out, bytes.as_slice());
            },
            UnitContent::Text(text) => {
                out.push(TAG_STRING);
                put_text(&mut out, text.as_str());
            },
            UnitContent::Array(items) => {
                out.push(TAG_ARRAY);
                let count = varint_encode(items.len() as u64);
                append_bytes(&mut out, count.as_slice());
                let ghost head = out@;
                let mut i: usize = 0;
                assert(items@.take(0) =~= Seq::<UnitContent>::empty());
                while i < items.len()
                    invariant
                        i <= items@.len(),
                        *self == UnitContent::Array(*items),
                        out@ == head + spec_marshal_items(content_views(items@.take(i as int))),
                        forall|j: int| 0 <= j < i ==> content_legal(content_view(#[trigger] items@[j])),
                    decreases items.len() - i,
                {
                    proof {
                        assert(decreases_to!(*self => self->Array_0));
                        assert(decreases_to!(*items => items[i as int]));
                    }
                    let item = items[i].marshal();
                    proof {
                        let done = items@.take(i as int);
                        let more = items@.take(i + 1);
                        assert(more.drop_last() =~= done);
                        assert(more.last() == items@[i as int]);
                        assert(content_views(more).drop_last() =~= content_views(done));
                    }
                    append_bytes(&mut out, item.as_slice());
                    i = i + 1;
                }
                assert(items@.take(items@.len() as int) =~= items@);
                proof {
                    lemma_content_views(items@);
                }
                assert(out@ =~= spec_marshal_content(self@));
            },
            UnitContent::Fields(fields) => {
                out.push(TAG_MAP);
                let count = varint_encode(fields.len() as u64);
                append_bytes(&mut out, count.as_slice());
                let ghost head = out@;
                let mut i: usize = 0;
                assert(fields@.take(0) =~= Seq::<(String, UnitContent)>::empty());
                while i < fields.len()
                    invariant
                        i <= fields@.len(),
                        *self == UnitContent::Fields(*fields),
                        out@ == head + spec_marshal_fields(field_views(fields@.take(i as int))),
                        forall|j: int|
                            0 <= j < i ==> encode_utf8((#[trigger] fields@[j]).0@).len()
                                <= u64::MAX && content_legal(content_view(fields@[j].1)),
                    decreases fields.len() - i,
                {
                    let field = &fields[i];
                    proof {
                        assert(decreases_to!(*self => self->Fields_0));
                        assert(decreases_to!(*fields => fields[i as int]));
                        assert(decreases_to!(fields[i as int] => fields[i as int].1));
                    }
                    let item = field.1.marshal();
                    proof {
                        let done = fields@.take(i as int);
                        let more = fields@.take(i + 1);
                        assert(more.drop_last() =~= done);
                        assert(more.last() == fields@[i as int]);
                        assert(field_views(more).drop_last() =~= field_views(done));
                    }
                    put_text(&mut out, field.0.as_str());
                    append_bytes(&mut out, item.as_slice());
                    i = i + 1;
                }
                assert(fields@.take(fields@.len() as int) =~= fields@);
                proof {
                    lemma_field_views(fields@);
                }
                assert(out@ =~= spec_marshal_content(self@));
            },
        }
        assert(out@ =~= spec_marshal_content(self@));
        proof {
            lemma_content_round_trip(self@, Seq::empty());
            assert(out@ + Seq::<u8>::empty() =~= out@);
        }
        out
    }
}

/// Joining is associative: what two steps read one after the other is what
/// one step reads that reads both.
proof fn lemma_joined_twice<T>(
    items: Seq<T>,
    used: nat,
    more: Seq<T>,
    further: nat,
    rest: Result<(Seq<T>, nat), UnitContentError>,
)
    ensures
        joined(items, used, joined(more, further, rest)) == joined(
            items + more,
            used + further,
            rest,
        ),
{
    match rest {
        Ok((last, n)) => {
            assert(items + (more + last) =~= (items + more) + last);
        },
        Err(_) => {},
    }
}

/// Reads the content at offset `start` of `data`.
fn parse_at(data: &[u8], start: usize) -> (result: Result<(UnitContent, usize), UnitContentError>)
    requires
        start <= data@.len(),
    ensures
        match result {
            Ok((content, used)) => spec_parse_content(data@.skip(start as int)) == Ok::<
                (ContentView, nat),
                UnitContentError,
            >((content@, used as nat)) && start + used <= data@.len(),
            Err(e) => spec_parse_content(data@.skip(start as int)) == Err::<
                (ContentView, nat),
                UnitContentError,
            >(e),
        },
    decreases data@.len() - start, 0nat,
{
    if start >= data.len() {
        return Err(UnitContentError::MalformedPayload);
    }
    let ghost buf = data@.skip(start as int);
    let ghost body = buf.skip(1);
    let tag: u8 = data[start];
    let rest = slice_subrange(data, start + 1, data.len());
    assert(rest@ =~= body);
    if tag == TAG_NIL {
        Ok((UnitContent::Nil, 1))
    } else if tag == TAG_BOOL {
        if rest.len() >= 1 && rest[0] == 0 {
            Ok((UnitContent::Bool(false), 2))
        } else if rest.len() >= 1 && rest[0] == 1 {
            Ok((UnitContent::Bool(true), 2))
        } else {
            Err(UnitContentError::MalformedPayload)
        }
    } else if tag == TAG_FLOAT64 {
        if rest.len() >= 8 {
            let bytes = slice_subrange(rest, 0, 8);
            assert(bytes@ =~= body.take(8));
            Ok((UnitContent::Float64(u64_from_le_bytes(bytes)), 9))
        } else {
            Err(UnitContentError::MalformedPayload)
        }
    } else if tag == TAG_STRING {
        match take_text(rest, 0) {
            Some((text, used)) => {
                assert(rest@.skip(0) =~= body);
                Ok((UnitContent::Text(text), 1 + used))
            },
            None => {
                assert(rest@.skip(0) =~= body);
                Err(UnitContentError::MalformedPayload)
            },
        }
    } else if tag == TAG_ARRAY {
        match varint_decode(rest) {
            Ok((count, used)) => {
                proof {
                    lemma_decode_extend(body, Seq::empty());
                    assert(data@.skip(start + 1 + used) =~= body.skip(used as int));
                }
                match parse_items(data, start + 1 + used, count) {
                    Ok((items, more)) => Ok((UnitContent::Array(items), 1 + used + more)),
                    Err(e) => Err(e),
                }
            },
            Err(_) => Err(UnitContentError::MalformedPayload),
        }
    } else if tag == TAG_MAP {
        match varint_decode(rest) {
            Ok((count, used)) => {
                proof {
                    lemma_decode_extend(body, Seq::empty());
                    assert(data@.skip(start + 1 + used) =~= body.skip(used as int));
                }
                match parse_fields(data, start + 1 + used, count) {
                    Ok((fields, more)) => Ok((UnitContent::Fields(fields), 1 + used + more)),
                    Err(e) => Err(e),
                }
            },
            Err(_) => Err(UnitContentError::MalformedPayload),
        }
    } else {
        Err(UnitContentError::UnexpectedTypeTag)
    }
}

/// Reads `count` contents at offset `start` of `data`, one behind the other.
fn parse_items(data: &[u8], start: usize, count: u64) -> (result: Result<
    (Vec<UnitContent>, usize),
    UnitContentError,
>)
    requires
        start <= data@.len(),
    ensures
        match result {
            Ok((items, used)) => spec_parse_items(data@.skip(start as int), count as nat) == Ok::<
                (Seq<ContentView>, nat),
                UnitContentError,
            >((content_views(items@), used as nat)) && start + used <= data@.len(),
            Err(e) => spec_parse_items(data@.skip(start as int), count as nat) == Err::<
                (Seq<ContentView>, nat),
                UnitContentError,
            >(e),
        },
    decreases data@.len() - start, 1nat,
{
    let ghost whole = spec_parse_items(data@.skip(start as int), count as nat);
    let mut items: Vec<UnitContent> = Vec::new();
    let mut cursor: usize = start;
    let mut left: u64 = count;
    assert(data@.len() == data.len());
    assert(content_views(items@) + Seq::<ContentView>::empty() =~= content_views(items@));
    assert(whole == joined(content_views(items@), 0, whole)) by {
        match whole {
            Ok((all, n)) => {
                assert(Seq::<ContentView>::empty() + all =~= all);
            },
            Err(_) => {},
        }
    }
    while left > 0
        invariant
            start <= cursor <= data@.len() <= usize::MAX,
            whole == spec_parse_items(data@.skip(start as int), count as nat),
            whole == joined(
                content_views(items@),
                (cursor - start) as nat,
                spec_parse_items(data@.skip(cursor as int), left as nat),
            ),
        decreases left,
    {
        let ghost done = content_views(items@);
        let ghost here = data@.skip(cursor as int);
        match parse_at(data, cursor) {
            Ok((item, used)) => {
                proof {
                    assert(here.skip(used as int) =~= data@.skip(cursor + used));
                    lemma_joined_twice(
                        done,
                        (cursor - start) as nat,
                        seq![item@],
                        used as nat,
                        spec_parse_items(data@.skip(cursor + used), (left - 1) as nat),
                    );
                    assert(items@.push(item).drop_last() =~= items@);
                    assert(content_views(items@.push(item)) =~= done + seq![item@]);
                }
                items.push(item);
                cursor = cursor + used;
                left = left - 1;
            },
            Err(e) => {
                return Err(e);
            },
        }
    }
    assert(content_views(items@) + Seq::<ContentView>::empty() =~= content_views(items@));
    Ok((items, cursor - start))
}

/// Reads `count` named contents at offset `start` of `data`, one behind the
/// other.
fn parse_fields(data: &[u8], start: usize, count: u64) -> (result: Result<
    (Vec<(String, UnitContent)>, usize),
    UnitContentError,
>)
    requires
        start <= data@.len(),
    ensures
        match result {
            Ok((fields, used)) => spec_parse_fields(data@.skip(start as int), count as nat)
                == Ok::<(Seq<(Seq<char>, ContentView)>, nat), UnitContentError>(
                (field_views(fields@), used as nat),
            ) && start + used <= data@.len(),
            Err(e) => spec_parse_fields(data@.skip(start as int), count as nat) == Err::<
                (Seq<(Seq<char>, ContentView)>, nat),
                UnitContentError,
            >(e),
        },
    decreases data@.len() - start, 1nat,
{
    let ghost whole = spec_parse_fields(data@.skip(start as int), count as nat);
    let mut fields: Vec<(String, UnitContent)> = Vec::new();
    let mut cursor: usize = start;
    let mut left: u64 = count;
    assert(data@.len() == data.len());
    assert(whole == joined(field_views(fields@), 0, whole)) by {
        match whole {
            Ok((all, n)) => {
                assert(Seq::<(Seq<char>, ContentView)>::empty() + all =~= all);
            },
            Err(_) => {},
        }
    }
    while left > 0
        invariant
            start <= cursor <= data@.len() <= usize::MAX,
            whole == spec_parse_fields(data@.skip(start as int), count as nat),
            whole == joined(
                field_views(fields@),
                (cursor - start) as nat,
                spec_parse_fields(data@.skip(cursor as int), left as nat),
            ),
        decreases left,
    {
        let ghost done = field_views(fields@);
        let ghost here = data@.skip(cursor as int);
        let (name, taken) = match take_text(data, cursor) {
            Some(found) => found,
            None => {
                assert(spec_parse_field(here) is Err);
                assert(spec_parse_fields(here, left as nat) is Err);
                return Err(UnitContentError::MalformedPayload);
            },
        };
        proof {
            lemma_take_text_bounds(here);
            assert(here.skip(taken as int) =~= data@.skip(cursor + taken));
        }
        match parse_at(data, cursor + taken) {
            Ok((content, used)) => {
                let field = (name, content);
                proof {
                    assert(here.skip((taken + used) as int) =~= data@.skip(cursor + taken + used));
                    lemma_joined_twice(
                        done,
                        (cursor - start) as nat,
                        seq![(field.0@, field.1@)],
                        (taken + used) as nat,
                        spec_parse_fields(
                            data@.skip(cursor + taken + used),
                            (left - 1) as nat,
                        ),
                    );
                    assert(fields@.push(field).drop_last() =~= fields@);
                    assert(field_views(fields@.push(field)) =~= done + seq![
                        (field.0@, field.1@),
                    ]);
                }
                fields.push(field);
                cursor = cursor + taken + used;
                left = left - 1;
            },
            Err(e) => {
                return Err(e);
            },
        }
    }
    assert(field_views(fields@) + Seq::<(Seq<char>, ContentView)>::empty() =~= field_views(
        fields@,
    ));
    Ok((fields, cursor - start))
}

impl UnitContent {
    /// Reads the content at the front of `data`, and says how many bytes it
    /// takes.
    pub fn parse(data: &[u8]) -> (result: Result<(UnitContent, usize), UnitContentError>)
        ensures
            match result {
                Ok((content, used)) => spec_parse_content(data@) == Ok::<
                    (ContentView, nat),
                    UnitContentError,
                >((content@, used as nat)) && used <= data@.len(),
                Err(e) => spec_parse_content(data@) == Err::<(ContentView, nat), UnitContentError>(
                    e,
                ),
            },
    {
        assert(data@.skip(0) =~= data@);
        parse_at(data, 0)
    }
}

/// Whether the binary form can hold the content: every text in it has a
/// UTF-8 form whose length fits in 64 bits, and so does every count.
pub open spec fn content_legal(content: ContentView) -> bool
    decreases content,
{
    match content {
        ContentView::Text(text) => encode_utf8(text).len() <= u64::MAX,
        ContentView::Array(items) => items.len() <= u64::MAX && forall|i: int|
            0 <= i < items.len() ==> content_legal(#[trigger] items[i]),
        ContentView::Fields(fields) => fields.len() <= u64::MAX && forall|i: int|
            0 <= i < fields.len() ==> encode_utf8((#[trigger] fields[i]).0).len() <= u64::MAX
                && content_legal(fields[i].1),
        _ => true,
    }
}

/// The binary forms of contents in a row start with the form of the first.
proof fn lemma_marshal_items_front(items: Seq<ContentView>)
    requires
        items.len() > 0,
    ensures
        spec_marshal_items(items) == spec_marshal_content(items[0]) + spec_marshal_items(
            items.skip(1),
        ),
    decreases items.len(),
{
    if items.len() == 1 {
        assert(items.drop_last() =~= Seq::<ContentView>::empty());
        assert(items.skip(1) =~= Seq::<ContentView>::empty());
        assert(spec_marshal_items(items.drop_last()) =~= Seq::<u8>::empty());
        assert(spec_marshal_items(items) =~= spec_marshal_content(items[0]));
        assert(spec_marshal_content(items[0]) + Seq::<u8>::empty() =~= spec_marshal_content(
            items[0],
        ));
    } else {
        let front = items.drop_last();
        lemma_marshal_items_front(front);
        assert(front.skip(1) =~= items.skip(1).drop_last());
        assert(items.skip(1).last() == items.last());
        assert(spec_marshal_items(items) =~= spec_marshal_content(items[0]) + (spec_marshal_items(
            front.skip(1),
        ) + spec_marshal_content(items.last())));
    }
}

/// The binary forms of named contents in a row start with the form of the
/// first.
proof fn lemma_marshal_fields_front(fields: Seq<(Seq<char>, ContentView)>)
    requires
        fields.len() > 0,
    ensures
        spec_marshal_fields(fields) == spec_text_field(fields[0].0) + spec_marshal_content(
            fields[0].1,
        ) + spec_marshal_fields(fields.skip(1)),
    decreases fields.len(),
{
    let first = spec_text_field(fields[0].0) + spec_marshal_content(fields[0].1);
    if fields.len() == 1 {
        assert(fields.drop_last() =~= Seq::<(Seq<char>, ContentView)>::empty());
        assert(fields.skip(1) =~= Seq::<(Seq<char>, ContentView)>::empty());
        assert(spec_marshal_fields(fields.drop_last()) =~= Seq::<u8>::empty());
        assert(spec_marshal_fields(fields) =~= first);
        assert(first + Seq::<u8>::empty() =~= first);
    } else {
        let front = fields.drop_last();
        lemma_marshal_fields_front(front);
        assert(front.skip(1) =~= fields.skip(1).drop_last());
        assert(fields.skip(1).last() == fields.last());
        assert(spec_marshal_fields(fields) =~= first + (spec_marshal_fields(front.skip(1))
            + spec_text_field(fields.last().0) + spec_marshal_content(fields.last().1)));
    }
}

/// Parsing the binary form of a content gives the content back and consumes
/// exactly that form, whatever follows it in the buffer.
pub proof fn lemma_content_round_trip(content: ContentView, more: Seq<u8>)
    requires
        content_legal(content),
    ensures
        spec_parse_content(spec_marshal_content(content) + more) == Ok::<
            (ContentView, nat),
            UnitContentError,
        >((content, spec_marshal_content(content).len())),
    decreases content,
{
    let form = spec_marshal_content(content);
    let buf = form + more;
    let body = buf.skip(1);
    match content {
        ContentView::Nil => {},
        ContentView::Bool(b) => {
            assert(body[0] == form[1]);
        },
        ContentView::Float64(bits) => {
            lemma_auto_spec_u64_to_from_le_bytes();
            assert(body.take(8) =~= spec_u64_to_le_bytes(bits));
        },
        ContentView::Text(text) => {
            assert(body =~= spec_text_field(text) + more);
            lemma_text_round_trip(text, more);
        },
        ContentView::Array(items) => {
            let count = spec_varint_encode(items.len());
            let row = spec_marshal_items(items);
            assert(body =~= count + (row + more));
            lemma_varint_round_trip(items.len() as u64);
            lemma_decode_extend(count, row + more);
            assert(body.skip(count.len() as int) =~= row + more);
            lemma_items_round_trip(items, more);
        },
        ContentView::Fields(fields) => {
            let count = spec_varint_encode(fields.len());
            let row = spec_marshal_fields(fields);
            assert(body =~= count + (row + more));
            lemma_varint_round_trip(fields.len() as u64);
            lemma_decode_extend(count, row + more);
            assert(body.skip(count.len() as int) =~= row + more);
            lemma_fields_round_trip(fields, more);
        },
    }
}

/// Contents that were written in a row are read back whole, whatever follows
/// them.
pub proof fn lemma_items_round_trip(items: Seq<ContentView>, more: Seq<u8>)
    requires
        forall|i: int| 0 <= i < items.len() ==> content_legal(#[trigger] items[i]),
    ensures
        spec_parse_items(spec_marshal_items(items) + more, items.len()) == Ok::<
            (Seq<ContentView>, nat),
            UnitContentError,
        >((items, spec_marshal_items(items).len())),
    decreases items,
{
    if items.len() == 0 {
        assert(items =~= Seq::<ContentView>::empty());
    } else {
        let first = spec_marshal_content(items[0]);
        let rest = items.skip(1);
        let row = spec_marshal_items(rest);
        let buf = spec_marshal_items(items) + more;
        lemma_marshal_items_front(items);
        assert(buf =~= first + (row + more));
        lemma_content_round_trip(items[0], row + more);
        assert(buf.skip(first.len() as int) =~= row + more);
        assert forall|i: int| 0 <= i < rest.len() implies content_legal(#[trigger] rest[i]) by {
            assert(rest[i] == items[i + 1]);
        }
        lemma_items_round_trip(rest, more);
        assert(seq![items[0]] + rest =~= items);
    }
}

/// Named contents that were written in a row are read back whole, whatever
/// follows them.
pub proof fn lemma_fields_round_trip(fields: Seq<(Seq<char>, ContentView)>, more: Seq<u8>)
    requires
        forall|i: int|
            0 <= i < fields.len() ==> encode_utf8((#[trigger] fields[i]).0).len() <= u64::MAX
                && content_legal(fields[i].1),
    ensures
        spec_parse_fields(spec_marshal_fields(fields) + more, fields.len()) == Ok::<
            (Seq<(Seq<char>, ContentView)>, nat),
            UnitContentError,
        >((fields, spec_marshal_fields(fields).len())),
    decreases fields,
{
    if fields.len() == 0 {
        assert(fields =~= Seq::<(Seq<char>, ContentView)>::empty());
    } else {
        let name = spec_text_field(fields[0].0);
        let first = spec_marshal_content(fields[0].1);
        let rest = fields.skip(1);
        let row = spec_marshal_fields(rest);
        let buf = spec_marshal_fields(fields) + more;
        lemma_marshal_fields_front(fields);
        assert(buf =~= name + (first + row + more));
        lemma_text_round_trip(fields[0].0, first + row + more);
        lemma_take_text_bounds(buf);
        assert(buf.skip(name.len() as int) =~= first + (row + more));
        lemma_content_round_trip(fields[0].1, row + more);
        assert(spec_parse_field(buf) == Ok::<((Seq<char>, ContentView), nat), UnitContentError>(
            (fields[0], (name.len() + first.len()) as nat),
        ));
        assert(buf.skip((name.len() + first.len()) as int) =~= row + more);
        assert forall|i: int| 0 <= i < rest.len() implies encode_utf8(
            (#[trigger] rest[i]).0,
        ).len() <= u64::MAX && content_legal(rest[i].1) by {
            assert(rest[i] == fields[i + 1]);
        }
        lemma_fields_round_trip(rest, more);
        assert(seq![fields[0]] + rest =~= fields);
        assert(spec_marshal_fields(fields).len() == name.len() + first.len() + row.len());
    }
}

} // verus!
