//! The tree builder: from a generic JSON document, or from JSON text by
//! way of the JSON text parser, to a value tree.
use vstd::prelude::*;
use vstd::std_specs::convert::FromSpecImpl;
use vstd::utf8::{decode_utf8, encode_utf8_decode_utf8, valid_utf8};
use vstd::string::StringSliceAdditionalSpecFns;
use std::str::Utf8Error;
use crate::text::push_text;
use crate::datavalue::{DataValue, Number, ValueView};
use crate::error::{Error, ErrorView};
use serde_json::Error as JsonError;
use serde_json::Value as JsonValue;

verus! {

/// A document of the JSON text parser, `serde_json`'s `Value`: carried
/// through, never looked into.
#[verifier::external_type_specification]
#[verifier::external_body]
pub struct ExJsonValue(JsonValue);

/// An error of the JSON text parser, `serde_json`'s `Error`: carried
/// through, never looked into.
#[verifier::external_type_specification]
#[verifier::external_body]
pub struct ExJsonError(JsonError);

/// The standard library's error for bytes that are not UTF-8: carried
/// through, never looked into.
#[verifier::external_type_specification]
#[verifier::external_body]
pub struct ExUtf8Error(Utf8Error);

/// A number of a generic document, by what it can be read as: a 64-bit
/// integer, and a binary64 number by its bit pattern.
#[derive(Debug, Clone, Copy)]
pub struct DocumentNumber {
    pub integer: Option<i64>,
    pub float: Option<u64>,
}

/// A generic JSON document: the plain shape of what the text parser makes.
#[derive(Debug)]
pub enum Document {
    Null,
    Bool(bool),
    Number(DocumentNumber),
    String(String),
    Array(Vec<Document>),
    Object(Vec<(String, Document)>),
}

/// The mathematical content of a [`Document`].
pub enum DocumentView {
    Null,
    Bool(bool),
    Number(DocumentNumber),
    String(Seq<char>),
    Array(Seq<DocumentView>),
    Object(Seq<(Seq<char>, DocumentView)>),
}

impl Document {
    /// The mathematical content of this document.
    pub open spec fn model(self) -> DocumentView
        decreases self,
    {
        match self {
            Document::Null => DocumentView::Null,
            Document::Bool(b) => DocumentView::Bool(b),
            Document::Number(n) => DocumentView::Number(n),
            Document::String(s) => DocumentView::String(s@),
            Document::Array(items) => DocumentView::Array(
                Seq::new(
                    items@.len(),
                    |i: int|
                        if 0 <= i < items@.len() {
                            items@[i].model()
                        } else {
                            DocumentView::Null
                        },
                ),
            ),
            Document::Object(entries) => DocumentView::Object(
                Seq::new(
                    entries@.len(),
                    |i: int|
                        if 0 <= i < entries@.len() {
                            (entries@[i].0@, entries@[i].1.model())
                        } else {
                            (Seq::empty(), DocumentView::Null)
                        },
                ),
            ),
        }
    }
}

impl View for Document {
    type V = DocumentView;

    open spec fn view(&self) -> DocumentView {
        self.model()
    }
}

/// What the JSON text parser makes of a text: a document, or an error.
pub uninterp spec fn json_value(text: Seq<char>) -> Result<JsonValue, JsonError>;

/// What a document of the JSON text parser holds.
pub uninterp spec fn json_content(value: JsonValue) -> DocumentView;

/// How high a document of the JSON text parser is: a bound on the number
/// of arrays and objects that lie inside one another in it.
pub uninterp spec fn json_height(value: JsonValue) -> nat;

/// The message of an error of the JSON text parser.
pub uninterp spec fn json_error_text(error: JsonError) -> Seq<char>;

/// The error that the standard library reports for bytes that are not UTF-8.
pub uninterp spec fn utf8_failure(bytes: Seq<u8>) -> Utf8Error;

/// The message of such an error.
pub uninterp spec fn utf8_error_text(error: Utf8Error) -> Seq<char>;

/// Calls `std::str::from_utf8`: the bytes as text where they are UTF-8,
/// else the error that `utf8_failure` names.
#[verifier::external_body]
fn text_of_bytes<'a>(bytes: &'a [u8]) -> (r: Result<&'a str, Utf8Error>)
    ensures
        r is Ok <==> valid_utf8(bytes@),
        r matches Ok(s) ==> s.spec_bytes() == bytes@,
        r matches Err(e) ==> e == utf8_failure(bytes@),
{
    std::str::from_utf8(bytes)
}

/// Writes a UTF-8 error of the standard library with its `Display`: the
/// text that `utf8_error_text` names.
#[verifier::external_body]
fn utf8_error_message(error: &Utf8Error) -> (s: String)
    ensures
        s@ == utf8_error_text(*error),
{
    error.to_string()
}

/// Calls `serde_json::from_str` for a value of `serde_json`. The parser reads
/// nothing but the text, so its answer is what `json_value` names.
#[verifier::external_body]
fn parse_value(text: &str) -> (r: Result<JsonValue, JsonError>)
    ensures
        r == json_value(text@),
{
    serde_json::from_str::<JsonValue>(text)
}

/// `serde_json::Value::is_null` tells whether the document is null.
pub assume_specification[ JsonValue::is_null ](value: &JsonValue) -> (r: bool)
    ensures
        r == (json_content(*value) is Null),
;

/// `serde_json::Value::as_bool` hands out the boolean of a boolean document.
pub assume_specification[ JsonValue::as_bool ](value: &JsonValue) -> (r: Option<bool>)
    ensures
        r == (match json_content(*value) {
            DocumentView::Bool(b) => Some(b),
            _ => None,
        }),
;

/// `serde_json::Value::as_i64` hands out a number as a 64-bit integer,
/// where it is one: this is what the `integer` of a number's content is.
pub assume_specification[ JsonValue::as_i64 ](value: &JsonValue) -> (r: Option<i64>)
    ensures
        r == (match json_content(*value) {
            DocumentView::Number(n) => n.integer,
            _ => None,
        }),
;

/// `serde_json::Value::as_str` hands out the text of a string document.
pub assume_specification<'a>[ JsonValue::as_str ](value: &'a JsonValue) -> (r: Option<&'a str>)
    ensures
        match json_content(*value) {
            DocumentView::String(s) => r matches Some(t) && t@ == s,
            _ => r is None,
        },
;

/// `serde_json::Value::as_array` hands out the elements of an array
/// document, in order. Each element lies inside the document, so it is
/// less high.
pub assume_specification<'a>[ JsonValue::as_array ](value: &'a JsonValue) -> (r: Option<
    &'a Vec<JsonValue>,
>)
    ensures
        match json_content(*value) {
            DocumentView::Array(items) => r matches Some(list) && list@.len() == items.len()
                && forall|i: int|
                0 <= i < items.len() ==> json_content(#[trigger] list@[i]) == items[i]
                    && json_height(list@[i]) < json_height(*value),
            _ => r is None,
        },
;

/// Calls `serde_json::Value::as_f64` and takes the bits of the float: this
/// is what the `float` of a number's content is.
#[verifier::external_body]
fn json_float_bits(value: &JsonValue) -> (r: Option<u64>)
    ensures
        r == (match json_content(*value) {
            DocumentView::Number(n) => n.float,
            _ => None,
        }),
{
    value.as_f64().map(|x| x.to_bits())
}

/// Calls `serde_json::Value::as_object` and collects what the `iter` of
/// the map hands out: the pairs of an object document, in the map's
/// order. Each value lies inside the document, so it is less high.
#[verifier::external_body]
fn json_entries<'a>(value: &'a JsonValue) -> (r: Option<Vec<(&'a String, &'a JsonValue)>>)
    ensures
        match json_content(*value) {
            DocumentView::Object(entries) => r matches Some(list) && list@.len() == entries.len()
                && forall|i: int|
                0 <= i < entries.len() ==> (#[trigger] list@[i]).0@ == entries[i].0
                    && json_content(*list@[i].1) == entries[i].1 && json_height(*list@[i].1)
                    < json_height(*value),
            _ => r is None,
        },
{
    match value.as_object() {
        Some(map) => Some(map.iter().collect()),
        None => None,
    }
}

/// The plain copy of a document of the JSON text parser.
fn document_of(value: &JsonValue) -> (doc: Document)
    ensures
        doc@ == json_content(*value),
    decreases json_height(*value),
{
    if value.is_null() {
        Document::Null
    } else if let Some(b) = value.as_bool() {
        Document::Bool(b)
    } else if let Some(s) = value.as_str() {
        Document::String(String::from_str(s))
    } else if let Some(items) = value.as_array() {
        let mut copy: Vec<Document> = Vec::new();
        let mut i: usize = 0;
        while i < items.len()
            invariant
                i <= items@.len(),
                json_content(*value) is Array,
                json_content(*value)->Array_0.len() == items@.len(),
                forall|j: int|
                    0 <= j < items@.len() ==> json_content(#[trigger] items@[j]) == json_content(
                        *value,
                    )->Array_0[j] && json_height(items@[j]) < json_height(*value),
                copy@.len() == i,
                forall|j: int| 0 <= j < i ==> (#[trigger] copy@[j])@ == json_content(items@[j]),
            decreases items@.len() - i,
        {
            copy.push(document_of(&items[i]));
            i = i + 1;
        }
        let doc = Document::Array(copy);
        assert(doc@->Array_0 =~= json_content(*value)->Array_0);
        doc
    } else if let Some(entries) = json_entries(value) {
        let mut copy: Vec<(String, Document)> = Vec::new();
        let mut i: usize = 0;
        while i < entries.len()
            invariant
                i <= entries@.len(),
                json_content(*value) is Object,
                json_content(*value)->Object_0.len() == entries@.len(),
                forall|j: int|
                    0 <= j < entries@.len() ==> (#[trigger] entries@[j]).0@ == json_content(
                        *value,
                    )->Object_0[j].0 && json_content(*entries@[j].1) == json_content(
                        *value,
                    )->Object_0[j].1 && json_height(*entries@[j].1) < json_height(*value),
                copy@.len() == i,
                forall|j: int|
                    0 <= j < i ==> (#[trigger] copy@[j]).0@ == entries@[j].0@ && copy@[j].1@
                        == json_content(*entries@[j].1),
            decreases entries@.len() - i,
        {
            let key = String::from_str(entries[i].0.as_str());
            copy.push((key, document_of(entries[i].1)));
            i = i + 1;
        }
        let doc = Document::Object(copy);
        assert(doc@->Object_0 =~= json_content(*value)->Object_0);
        doc
    } else {
        Document::Number(
            DocumentNumber { integer: value.as_i64(), float: json_float_bits(value) },
        )
    }
}

/// Writes an error of `serde_json` with its `Display`: the text that
/// `json_error_text` names.
#[verifier::external_body]
fn error_message(error: &JsonError) -> (s: String)
    ensures
        s@ == json_error_text(*error),
{
    error.to_string()
}

impl From<JsonError> for Error {
    /// The error of the JSON text parser, by its message.
    fn from(error: JsonError) -> (e: Error)
        ensures
            e@ == ErrorView::Json(json_error_text(error)),
    {
        Error::Json(error_message(&error))
    }
}

/// What `from` returns is stated by its `ensures`, over views.
impl FromSpecImpl<JsonError> for Error {
    open spec fn obeys_from_spec() -> bool {
        false
    }

    open spec fn from_spec(error: JsonError) -> Error {
        arbitrary()
    }
}

/// The error for a number that is neither a 64-bit integer nor a binary64 number.
pub open spec fn unsupported_number() -> ErrorView {
    ErrorView::Syntax("Unsupported number type"@)
}

/// The value that a number of a document becomes: an integer where it is
/// one, else a float where it is one, else nothing.
pub open spec fn build_number(n: DocumentNumber) -> Result<ValueView, ErrorView> {
    match n.integer {
        Some(i) => Ok(ValueView::Integer(i)),
        None => match n.float {
            Some(bits) => Ok(ValueView::Float(bits)),
            None => Err(unsupported_number()),
        },
    }
}

/// The tree that a document becomes. Arrays keep their elements and
/// objects their pairs, in order; the build fails as a whole where a
/// number cannot be held.
pub open spec fn build(doc: DocumentView) -> Result<ValueView, ErrorView>
    decreases doc, 0nat,
{
    match doc {
        DocumentView::Null => Ok(ValueView::Null),
        DocumentView::Bool(b) => Ok(ValueView::Bool(b)),
        DocumentView::Number(n) => build_number(n),
        DocumentView::String(s) => Ok(ValueView::String(s)),
        DocumentView::Array(items) => match build_items(items, items.len()) {
            Ok(built) => Ok(ValueView::Array(built)),
            Err(e) => Err(e),
        },
        DocumentView::Object(entries) => match build_entries(entries, entries.len()) {
            Ok(built) => Ok(ValueView::Object(built)),
            Err(e) => Err(e),
        },
    }
}

/// The trees of the first `n` elements, or the error of the first that fails.
pub open spec fn build_items(items: Seq<DocumentView>, n: nat) -> Result<
    Seq<ValueView>,
    ErrorView,
>
    decreases items, n,
{
    if n == 0 || n > items.len() {
        Ok(Seq::empty())
    } else {
        match build_items(items, (n - 1) as nat) {
            Err(e) => Err(e),
            Ok(built) => match build(items[n - 1]) {
                Ok(v) => Ok(built.push(v)),
                Err(e) => Err(e),
            },
        }
    }
}

/// The pairs built of the first `n` pairs, or the error of the first that fails.
pub open spec fn build_entries(entries: Seq<(Seq<char>, DocumentView)>, n: nat) -> Result<
    Seq<(Seq<char>, ValueView)>,
    ErrorView,
>
    decreases entries, n,
{
    if n == 0 || n > entries.len() {
        Ok(Seq::empty())
    } else {
        match build_entries(entries, (n - 1) as nat) {
            Err(e) => Err(e),
            Ok(built) => match build(entries[n - 1].1) {
                Ok(v) => Ok(built.push((entries[n - 1].0, v))),
                Err(e) => Err(e),
            },
        }
    }
}

/// Builds the tree of a document; see [`build`].
pub fn from_document(doc: &Document) -> (r: Result<DataValue, Error>)
    ensures
        match build(doc@) {
            Ok(v) => r matches Ok(d) && d@ == v,
            Err(error) => r matches Err(e) && e@ == error,
        },
    decreases doc,
{
    match doc {
        Document::Null => Ok(DataValue::Null),
        Document::Bool(b) => Ok(DataValue::Bool(*b)),
        Document::Number(n) => {
            if let Some(i) = n.integer {
                Ok(DataValue::Number(Number::Integer(i)))
            } else if let Some(bits) = n.float {
                Ok(DataValue::Number(Number::Float(bits)))
            } else {
                Err(Error::syntax("Unsupported number type"))
            }
        },
        Document::String(s) => Ok(DataValue::String(s.clone())),
        Document::Array(items) => {
            let mut values: Vec<DataValue> = Vec::new();
            let mut i: usize = 0;
            while i < items.len()
                invariant
                    i <= items@.len(),
                    *doc == Document::Array(*items),
                    build_items(doc@->Array_0, i as nat) matches Ok(built) && built.len() == i
                        && forall|j: int| 0 <= j < i ==> (#[trigger] values@[j])@ == built[j],
                    values@.len() == i,
                decreases items@.len() - i,
            {
                assert(decreases_to!(*doc => doc->Array_0));
                assert(decreases_to!(*items => items@[i as int]));
                assert(doc@->Array_0[i as int] == items@[i as int]@);
                match from_document(&items[i]) {
                    Ok(v) => values.push(v),
                    Err(e) => {
                        proof {
                            lemma_build_items_fails(doc@->Array_0, (i + 1) as nat, items@.len());
                        }
                        return Err(e);
                    },
                }
                i = i + 1;
            }
            let built = DataValue::Array(values);
            assert(built@->Array_0 =~= build_items(doc@->Array_0, i as nat)->Ok_0);
            Ok(built)
        },
        Document::Object(entries) => {
            let mut values: Vec<(String, DataValue)> = Vec::new();
            let mut i: usize = 0;
            while i < entries.len()
                invariant
                    i <= entries@.len(),
                    *doc == Document::Object(*entries),
                    build_entries(doc@->Object_0, i as nat) matches Ok(built) && built.len() == i
                        && forall|j: int|
                        0 <= j < i ==> ((#[trigger] values@[j]).0@, values@[j].1@) == built[j],
                    values@.len() == i,
                decreases entries@.len() - i,
            {
                assert(decreases_to!(*doc => doc->Object_0));
                assert(decreases_to!(*entries => entries@[i as int]));
                assert(doc@->Object_0[i as int] == (entries@[i as int].0@, entries@[i as int].1@));
                match from_document(&entries[i].1) {
                    Ok(v) => values.push((entries[i].0.clone(), v)),
                    Err(e) => {
                        proof {
                            lemma_build_entries_fails(
                                doc@->Object_0,
                                (i + 1) as nat,
                                entries@.len(),
                            );
                        }
                        return Err(e);
                    },
                }
                i = i + 1;
            }
            let built = DataValue::Object(values);
            assert(built@->Object_0 =~= build_entries(doc@->Object_0, i as nat)->Ok_0);
            Ok(built)
        },
    }
}

/// Once the first `n` elements fail to build, any more of them fail the same way.
pub proof fn lemma_build_items_fails(items: Seq<DocumentView>, n: nat, m: nat)
    requires
        n <= m <= items.len(),
        build_items(items, n) is Err,
    ensures
        build_items(items, m) == build_items(items, n),
    decreases m,
{
    if m > n {
        lemma_build_items_fails(items, n, (m - 1) as nat);
    }
}

/// Once the first `n` pairs fail to build, any more of them fail the same way.
pub proof fn lemma_build_entries_fails(entries: Seq<(Seq<char>, DocumentView)>, n: nat, m: nat)
    requires
        n <= m <= entries.len(),
        build_entries(entries, n) is Err,
    ensures
        build_entries(entries, m) == build_entries(entries, n),
    decreases m,
{
    if m > n {
        lemma_build_entries_fails(entries, n, (m - 1) as nat);
    }
}

/// Whether a tree can be built of the document: whether each number in
/// it is a 64-bit integer or a binary64 number.
pub open spec fn representable(doc: DocumentView) -> bool
    decreases doc,
{
    match doc {
        DocumentView::Number(n) => n.integer is Some || n.float is Some,
        DocumentView::Array(items) => forall|i: int|
            0 <= i < items.len() ==> representable(#[trigger] items[i]),
        DocumentView::Object(entries) => forall|i: int|
            0 <= i < entries.len() ==> representable((#[trigger] entries[i]).1),
        _ => true,
    }
}

/// A build succeeds exactly for a document whose numbers can all be held,
/// and it fails in one way only. The tree has the shape of the document:
/// as many elements in each array, and the same keys in the same order in
/// each object.
pub proof fn lemma_build_total(doc: DocumentView)
    ensures
        build(doc) is Ok <==> representable(doc),
        build(doc) matches Err(e) ==> e == unsupported_number(),
        build(doc) matches Ok(v) ==> match doc {
            DocumentView::Null => v is Null,
            DocumentView::Bool(b) => v == ValueView::Bool(b),
            DocumentView::Number(_) => v is Integer || v is Float,
            DocumentView::String(s) => v == ValueView::String(s),
            DocumentView::Array(items) => v is Array && v->Array_0.len() == items.len(),
            DocumentView::Object(entries) => v matches ValueView::Object(built) && built.len()
                == entries.len() && forall|i: int|
                0 <= i < entries.len() ==> (#[trigger] built[i]).0 == entries[i].0,
        },
    decreases doc, 0nat,
{
    match doc {
        DocumentView::Array(items) => {
            lemma_build_items_total(items, items.len());
        },
        DocumentView::Object(entries) => {
            lemma_build_entries_total(entries, entries.len());
        },
        _ => {},
    }
}

/// The first `n` elements build exactly when each of them can be built.
pub proof fn lemma_build_items_total(items: Seq<DocumentView>, n: nat)
    requires
        n <= items.len(),
    ensures
        build_items(items, n) is Ok <==> forall|i: int|
            0 <= i < n ==> representable(#[trigger] items[i]),
        build_items(items, n) matches Err(e) ==> e == unsupported_number(),
        build_items(items, n) matches Ok(built) ==> built.len() == n,
    decreases items, n,
{
    if n > 0 {
        lemma_build_items_total(items, (n - 1) as nat);
        lemma_build_total(items[n - 1]);
        if build_items(items, n) is Ok {
            assert forall|i: int| 0 <= i < n implies representable(#[trigger] items[i]) by {
                if i < n - 1 {
                } else {
                    assert(representable(items[n - 1]));
                }
            }
        }
    }
}

/// The first `n` pairs build exactly when the value of each can be built.
pub proof fn lemma_build_entries_total(entries: Seq<(Seq<char>, DocumentView)>, n: nat)
    requires
        n <= entries.len(),
    ensures
        build_entries(entries, n) is Ok <==> forall|i: int|
            0 <= i < n ==> representable((#[trigger] entries[i]).1),
        build_entries(entries, n) matches Err(e) ==> e == unsupported_number(),
        build_entries(entries, n) matches Ok(built) ==> built.len() == n && forall|i: int|
            0 <= i < n ==> (#[trigger] built[i]).0 == entries[i].0,
    decreases entries, n,
{
    if n > 0 {
        lemma_build_entries_total(entries, (n - 1) as nat);
        lemma_build_total(entries[n - 1].1);
        if build_entries(entries, n) is Ok {
            assert forall|i: int| 0 <= i < n implies representable(
                (#[trigger] entries[i]).1,
            ) by {
                if i < n - 1 {
                } else {
                    assert(representable(entries[n - 1].1));
                }
            }
        }
    }
}

/// What building from a text gives: the tree of the document that the
/// text parser makes of it, or a syntax error with the parser's message.
pub open spec fn build_text(text: Seq<char>) -> Result<ValueView, ErrorView> {
    match json_value(text) {
        Ok(value) => build(json_content(value)),
        Err(error) => Err(ErrorView::Syntax(json_error_text(error))),
    }
}

/// Builds the tree of a document of the JSON text parser.
pub fn from_json(json: &JsonValue) -> (r: Result<DataValue, Error>)
    ensures
        match build(json_content(*json)) {
            Ok(v) => r matches Ok(d) && d@ == v,
            Err(error) => r matches Err(e) && e@ == error,
        },
{
    let doc = document_of(json);
    from_document(&doc)
}

/// Parses a JSON text and builds its tree; see [`build_text`].
pub fn from_str(s: &str) -> (r: Result<DataValue, Error>)
    ensures
        match build_text(s@) {
            Ok(v) => r matches Ok(d) && d@ == v,
            Err(error) => r matches Err(e) && e@ == error,
        },
{
    match parse_value(s) {
        Ok(value) => from_json(&value),
        Err(error) => Err(Error::syntax(error_message(&error).as_str())),
    }
}

/// What building from bytes gives: what building from their text gives
/// where they are UTF-8, else a syntax error with the reason.
pub open spec fn build_bytes(bytes: Seq<u8>) -> Result<ValueView, ErrorView> {
    if valid_utf8(bytes) {
        build_text(decode_utf8(bytes))
    } else {
        Err(ErrorView::Syntax("Invalid UTF-8: "@ + utf8_error_text(utf8_failure(bytes))))
    }
}

/// Reads bytes as UTF-8 text, parses it and builds its tree; see [`build_bytes`].
pub fn from_slice(v: &[u8]) -> (r: Result<DataValue, Error>)
    ensures
        match build_bytes(v@) {
            Ok(value) => r matches Ok(d) && d@ == value,
            Err(error) => r matches Err(e) && e@ == error,
        },
{
    match text_of_bytes(v) {
        Ok(s) => {
            proof {
                encode_utf8_decode_utf8(s@);
            }
            from_str(s)
        },
        Err(error) => {
            let mut message = String::new();
            push_text(&mut message, "Invalid UTF-8: ");
            let reason = utf8_error_message(&error);
            push_text(&mut message, reason.as_str());
            Err(Error::syntax(message.as_str()))
        },
    }
}

impl DataValue {
    /// Parses a JSON text and builds its tree; see [`build_text`].
    pub fn from_str(s: &str) -> (r: Result<DataValue, Error>)
        ensures
            match build_text(s@) {
                Ok(v) => r matches Ok(d) && d@ == v,
                Err(error) => r matches Err(e) && e@ == error,
            },
    {
        from_str(s)
    }

    /// Reads bytes as UTF-8 text, parses it and builds its tree; see [`build_bytes`].
    pub fn from_slice(v: &[u8]) -> (r: Result<DataValue, Error>)
        ensures
            match build_bytes(v@) {
                Ok(value) => r matches Ok(d) && d@ == value,
                Err(error) => r matches Err(e) && e@ == error,
            },
    {
        from_slice(v)
    }

    /// Builds the tree of a document of the JSON text parser.
    pub fn from_json(json: &JsonValue) -> (r: Result<DataValue, Error>)
        ensures
            match build(json_content(*json)) {
                Ok(v) => r matches Ok(d) && d@ == v,
                Err(error) => r matches Err(e) && e@ == error,
            },
    {
        from_json(json)
    }
}

} // verus!
