//! The two renderers: compact text and indented text.
//!
//! A rendering is a sequence of symbols: characters, and floats given by
//! their bit patterns, which this library does not write out itself. The
//! renderers return it in pieces, runs of text between the floats; whoever
//! prints it writes each float in decimal where it stands.
use vstd::prelude::*;
use crate::datavalue::{DataValue, Number, ValueView};
use crate::text::{push_signed_decimal, signed_decimal};
use crate::time::{rfc3339_text, span_text};

verus! {

/// One symbol of a rendering: a character, or a float by its bit pattern.
/// The character type is a parameter so that a character taken out of a
/// sequence can stand in a symbol as it is.
pub enum Glyph<C> {
    Char(C),
    Float(u64),
}

/// One symbol of a rendering.
pub type Symbol = Glyph<char>;

/// A run of text, or one float by its bit pattern.
#[derive(Debug)]
pub enum Piece {
    Text(String),
    Float(u64),
}

/// The symbols of a text.
pub open spec fn text(s: Seq<char>) -> Seq<Symbol>
    decreases s.len(),
{
    if s.len() == 0 {
        Seq::empty()
    } else {
        text(s.drop_last()).push(Symbol::Char(s.last()))
    }
}

/// The symbols of one piece.
pub open spec fn piece_symbols(p: Piece) -> Seq<Symbol> {
    match p {
        Piece::Text(s) => text(s@),
        Piece::Float(bits) => seq![Symbol::Float(bits)],
    }
}

/// The symbols of a list of pieces, in order.
pub open spec fn flatten(pieces: Seq<Piece>) -> Seq<Symbol>
    decreases pieces.len(),
{
    if pieces.len() == 0 {
        Seq::empty()
    } else {
        flatten(pieces.drop_last()) + piece_symbols(pieces.last())
    }
}

/// Whether the pieces are cut as far as can be: no run of text is empty,
/// and none is followed by another.
pub open spec fn canonical(pieces: Seq<Piece>) -> bool {
    forall|i: int|
        0 <= i < pieces.len() ==> (#[trigger] pieces[i] matches Piece::Text(s) ==> s@.len() > 0 && (i
            + 1 < pieces.len() ==> pieces[i + 1] is Float))
}

/// `s` with a backslash in front of each double quote. Nothing else is
/// escaped: backslashes and control characters stay as they are.
pub open spec fn escape(s: Seq<char>) -> Seq<char>
    decreases s.len(),
{
    if s.len() == 0 {
        Seq::empty()
    } else if s.last() == '"' {
        escape(s.drop_last()) + seq!['\\', '"']
    } else {
        escape(s.drop_last()).push(s.last())
    }
}

/// `s` between double quotes, its own double quotes escaped.
pub open spec fn quoted(s: Seq<char>) -> Seq<char> {
    seq!['"'] + escape(s) + seq!['"']
}

/// The rendering of a value that is no array and no object; both
/// renderers write it alike.
pub open spec fn scalar(v: ValueView) -> Seq<Symbol> {
    match v {
        ValueView::Null => text("null"@),
        ValueView::Bool(b) => if b {
            text("true"@)
        } else {
            text("false"@)
        },
        ValueView::Integer(i) => text(signed_decimal(i as int)),
        ValueView::Float(bits) => seq![Symbol::Float(bits)],
        ValueView::String(s) => text(quoted(s)),
        ValueView::DateTime(t) => text(rfc3339_text(t.parts().0, t.parts().1)),
        ValueView::Duration(d) => text(span_text(d.total() as int)),
        _ => Seq::empty(),
    }
}

impl ValueView {
    /// The compact rendering: no whitespace, elements and pairs separated
    /// by commas, a colon between key and value.
    pub open spec fn compact(self) -> Seq<Symbol>
        decreases self, 0nat,
    {
        match self {
            ValueView::Array(items) => text("["@) + compact_items(items, items.len()) + text(
                "]"@,
            ),
            ValueView::Object(entries) => text("{"@) + compact_entries(entries, entries.len())
                + text("}"@),
            _ => scalar(self),
        }
    }

    /// The indented rendering, for a value that stands at indentation
    /// `pad`. An empty array is `[]` and an empty object `{}`. Any other is
    /// its opening bracket and a line end, then one line for each element
    /// or pair, two spaces deeper than `pad` and with a comma after all but
    /// the last, then `pad` and the closing bracket.
    pub open spec fn pretty(self, pad: Seq<char>) -> Seq<Symbol>
        decreases self, 0nat,
    {
        match self {
            ValueView::Array(items) => if items.len() == 0 {
                text("[]"@)
            } else {
                text("[\n"@) + pretty_items(items, items.len(), pad + "  "@) + text(pad) + text(
                    "]"@,
                )
            },
            ValueView::Object(entries) => if entries.len() == 0 {
                text("{}"@)
            } else {
                text("{\n"@) + pretty_entries(entries, entries.len(), pad + "  "@) + text(pad)
                    + text("}"@)
            },
            _ => scalar(self),
        }
    }
}

/// A comma, where `wanted`.
pub open spec fn comma(wanted: bool) -> Seq<Symbol> {
    if wanted {
        text(","@)
    } else {
        Seq::empty()
    }
}

/// One element in the compact rendering, after a comma unless it is the first.
pub open spec fn compact_item(item: ValueView, first: bool) -> Seq<Symbol>
    decreases item, 1nat,
{
    comma(!first) + item.compact()
}

/// One pair in the compact rendering, after a comma unless it is the first.
pub open spec fn compact_entry(key: Seq<char>, value: ValueView, first: bool) -> Seq<Symbol>
    decreases value, 1nat,
{
    comma(!first) + text(quoted(key)) + text(":"@) + value.compact()
}

/// The compact rendering of the first `n` elements, with commas between them.
pub open spec fn compact_items(items: Seq<ValueView>, n: nat) -> Seq<Symbol>
    decreases items, n,
{
    if n == 0 || n > items.len() {
        Seq::empty()
    } else {
        compact_items(items, (n - 1) as nat) + compact_item(items[n - 1], n == 1)
    }
}

/// The compact rendering of the first `n` pairs, with commas between them.
pub open spec fn compact_entries(entries: Seq<(Seq<char>, ValueView)>, n: nat) -> Seq<Symbol>
    decreases entries, n,
{
    if n == 0 || n > entries.len() {
        Seq::empty()
    } else {
        compact_entries(entries, (n - 1) as nat) + compact_entry(
            entries[n - 1].0,
            entries[n - 1].1,
            n == 1,
        )
    }
}

/// The line of one element in the indented rendering: the indentation,
/// the element, a comma where more elements follow, and a line end.
pub open spec fn item_line(item: ValueView, pad: Seq<char>, more: bool) -> Seq<Symbol>
    decreases item, 1nat,
{
    text(pad) + item.pretty(pad) + comma(more) + text("\n"@)
}

/// The line of one pair in the indented rendering: the indentation, the
/// key in quotes, a colon and a space, the value, a comma where more pairs
/// follow, and a line end.
pub open spec fn entry_line(key: Seq<char>, value: ValueView, pad: Seq<char>, more: bool) -> Seq<
    Symbol,
>
    decreases value, 1nat,
{
    text(pad) + text(quoted(key)) + text(": "@) + value.pretty(pad) + comma(more) + text("\n"@)
}

/// The lines of the first `n` elements in the indented rendering, each at
/// indentation `pad`.
pub open spec fn pretty_items(items: Seq<ValueView>, n: nat, pad: Seq<char>) -> Seq<Symbol>
    decreases items, n,
{
    if n == 0 || n > items.len() {
        Seq::empty()
    } else {
        pretty_items(items, (n - 1) as nat, pad) + item_line(items[n - 1], pad, n < items.len())
    }
}

/// The lines of the first `n` pairs in the indented rendering, each at
/// indentation `pad`.
pub open spec fn pretty_entries(
    entries: Seq<(Seq<char>, ValueView)>,
    n: nat,
    pad: Seq<char>,
) -> Seq<Symbol>
    decreases entries, n,
{
    if n == 0 || n > entries.len() {
        Seq::empty()
    } else {
        pretty_entries(entries, (n - 1) as nat, pad) + entry_line(
            entries[n - 1].0,
            entries[n - 1].1,
            pad,
            n < entries.len(),
        )
    }
}

/// The symbols of two texts in a row are those of the joined text.
pub proof fn lemma_text_concat(a: Seq<char>, b: Seq<char>)
    ensures
        text(a + b) == text(a) + text(b),
    decreases b.len(),
{
    if b.len() == 0 {
        assert(a + b =~= a);
        assert(text(a) + text(b) =~= text(a));
    } else {
        lemma_text_concat(a, b.drop_last());
        assert((a + b).drop_last() =~= a + b.drop_last());
        assert(text(a + b) =~= text(a) + text(b));
    }
}

/// The symbols of a text of one character.
pub proof fn lemma_text_single(c: char)
    ensures
        text(seq![c]) == seq![Symbol::Char(c)],
{
    assert(seq![c].drop_last() =~= Seq::<char>::empty());
    assert(text(Seq::<char>::empty()) =~= Seq::<Symbol>::empty());
    assert(text(seq![c]) =~= seq![Symbol::Char(c)]);
}

/// The symbols of a text with one more character.
pub proof fn lemma_text_push(a: Seq<char>, c: char)
    ensures
        text(a.push(c)) == text(a).push(Symbol::Char(c)),
{
    assert(a.push(c).drop_last() =~= a);
}

/// Adding a piece adds its symbols.
pub proof fn lemma_flatten_push(pieces: Seq<Piece>, p: Piece)
    ensures
        flatten(pieces.push(p)) == flatten(pieces) + piece_symbols(p),
{
    assert(pieces.push(p).drop_last() =~= pieces);
}

/// Whether a sequence of symbols is empty or ends with a float.
pub open spec fn ends_run(symbols: Seq<Symbol>) -> bool {
    symbols.len() > 0 ==> symbols.last() is Float
}

/// A run of text after symbols that end no run is told apart from them:
/// two such splits of the same symbols are the same split.
pub proof fn lemma_run_is_unique(p: Seq<Symbol>, s: Seq<char>, q: Seq<Symbol>, t: Seq<char>)
    requires
        ends_run(p),
        ends_run(q),
        p + text(s) == q + text(t),
    ensures
        p == q,
        s == t,
    decreases s.len(),
{
    if s.len() == 0 {
        assert(p + text(s) =~= p);
        if t.len() > 0 {
            assert((q + text(t)).last() == Symbol::Char(t.last()));
        }
        assert(q + text(t) =~= q);
    } else {
        assert((p + text(s)).last() == Symbol::Char(s.last()));
        if t.len() == 0 {
            assert(q + text(t) =~= q);
        }
        assert((q + text(t)).last() == Symbol::Char(t.last()));
        assert((p + text(s)).drop_last() =~= p + text(s.drop_last()));
        assert((q + text(t)).drop_last() =~= q + text(t.drop_last()));
        lemma_run_is_unique(p, s.drop_last(), q, t.drop_last());
        assert(s =~= s.drop_last().push(s.last()));
        assert(t =~= t.drop_last().push(t.last()));
    }
}

/// The symbols of pieces that are cut as far as can be end a run exactly
/// where the last piece is a float.
pub proof fn lemma_canonical_end(pieces: Seq<Piece>)
    requires
        canonical(pieces),
    ensures
        pieces.len() > 0 ==> flatten(pieces).len() > 0,
        pieces.len() > 0 && pieces.last() is Float ==> flatten(pieces).last() is Float,
        pieces.len() > 0 && pieces.last() is Text ==> flatten(pieces).last() is Char,
        pieces.len() > 0 ==> canonical(pieces.drop_last()),
{
    if pieces.len() > 0 {
        match pieces.last() {
            Piece::Text(s) => {
                assert(text(s@).len() > 0);
                assert(text(s@).last() == Symbol::Char(s@.last()));
            },
            Piece::Float(bits) => {},
        }
        assert forall|i: int| 0 <= i < pieces.drop_last().len() implies (
        #[trigger] pieces.drop_last()[i] matches Piece::Text(s) ==> s@.len() > 0 && (i + 1
            < pieces.drop_last().len() ==> pieces.drop_last()[i + 1] is Float)) by {
            assert(pieces.drop_last()[i] == pieces[i]);
        }
    }
}

/// The cutting is determined by the symbols: two lists of pieces, each cut
/// as far as can be, that spell the same symbols are the same piece by piece.
pub proof fn lemma_canonical_is_unique(a: Seq<Piece>, b: Seq<Piece>)
    requires
        canonical(a),
        canonical(b),
        flatten(a) == flatten(b),
    ensures
        a.len() == b.len(),
        forall|i: int| 0 <= i < a.len() ==> piece_symbols(#[trigger] a[i]) == piece_symbols(b[i]),
        forall|i: int|
            0 <= i < a.len() ==> match (#[trigger] a[i], b[i]) {
                (Piece::Text(s), Piece::Text(t)) => s@ == t@,
                (Piece::Float(x), Piece::Float(y)) => x == y,
                _ => false,
            },
    decreases a.len(),
{
    lemma_canonical_end(a);
    lemma_canonical_end(b);
    if a.len() == 0 {
    } else {
        let a0 = a.drop_last();
        let b0 = b.drop_last();
        lemma_canonical_end(a0);
        lemma_canonical_end(b0);
        match a.last() {
            Piece::Float(x) => {
                assert(flatten(a).drop_last() =~= flatten(a0));
                assert(flatten(b).drop_last() =~= flatten(b0));
            },
            Piece::Text(s) => {
                let t = b.last()->Text_0;
                assert(a0.len() > 0 ==> a0.last() == a[a.len() - 2]);
                assert(b0.len() > 0 ==> b0.last() == b[b.len() - 2]);
                lemma_run_is_unique(flatten(a0), s@, flatten(b0), t@);
            },
        }
        lemma_canonical_is_unique(a0, b0);
        assert forall|i: int| 0 <= i < a.len() implies match (#[trigger] a[i], b[i]) {
            (Piece::Text(s), Piece::Text(t)) => s@ == t@,
            (Piece::Float(x), Piece::Float(y)) => x == y,
            _ => false,
        } by {
            if i < a.len() - 1 {
                assert(a0[i] == a[i]);
                assert(b0[i] == b[i]);
            }
        }
    }
}

/// Collects a rendering: the pieces that are complete, and the run of text
/// that is still growing.
struct Writer {
    pieces: Vec<Piece>,
    run: String,
}

impl Writer {
    /// What has been written so far.
    spec fn symbols(self) -> Seq<Symbol> {
        flatten(self.pieces@) + text(self.run@)
    }

    /// The complete pieces are cut as far as can be, and the last of them is
    /// no text: the growing run never follows another.
    spec fn wf(self) -> bool {
        canonical(self.pieces@) && (self.pieces@.len() > 0 ==> self.pieces@.last() is Float)
    }

    fn new() -> (w: Writer)
        ensures
            w.symbols() == Seq::<Symbol>::empty(),
            w.wf(),
    {
        Writer { pieces: Vec::new(), run: String::new() }
    }

    fn push_str(&mut self, s: &str)
        requires
            old(self).wf(),
        ensures
            final(self).symbols() == old(self).symbols() + text(s@),
            final(self).wf(),
    {
        proof {
            lemma_text_concat(self.run@, s@);
        }
        self.run.append(s);
    }

    fn push_char(&mut self, c: char)
        requires
            old(self).wf(),
        ensures
            final(self).symbols() == old(self).symbols() + seq![Symbol::Char(c)],
            final(self).wf(),
    {
        proof {
            lemma_text_concat(self.run@, seq![c]);
            lemma_text_single(c);
            assert(self.run@.push(c) =~= self.run@ + seq![c]);
        }
        self.run.push(c);
    }

    /// Closes the run of text, where there is one.
    fn flush(&mut self)
        requires
            old(self).wf(),
        ensures
            final(self).symbols() == old(self).symbols(),
            final(self).run@.len() == 0,
            canonical(final(self).pieces@),
    {
        if !self.run.as_str().is_empty() {
            let mut run = String::new();
            std::mem::swap(&mut self.run, &mut run);
            proof {
                lemma_flatten_push(self.pieces@, Piece::Text(run));
                assert(text(self.run@) =~= Seq::<Symbol>::empty());
            }
            self.pieces.push(Piece::Text(run));
        }
    }

    fn push_float(&mut self, bits: u64)
        requires
            old(self).wf(),
        ensures
            final(self).symbols() == old(self).symbols() + seq![Symbol::Float(bits)],
            final(self).wf(),
    {
        self.flush();
        proof {
            lemma_flatten_push(self.pieces@, Piece::Float(bits));
            assert(text(self.run@) =~= Seq::<Symbol>::empty());
        }
        self.pieces.push(Piece::Float(bits));
    }

    fn finish(self) -> (pieces: Vec<Piece>)
        requires
            self.wf(),
        ensures
            flatten(pieces@) == self.symbols(),
            canonical(pieces@),
    {
        let mut w = self;
        w.flush();
        assert(text(w.run@) =~= Seq::<Symbol>::empty());
        w.pieces
    }

    /// Writes `s` between double quotes, its own double quotes escaped.
    fn push_quoted(&mut self, s: &str)
        requires
            old(self).wf(),
        ensures
            final(self).symbols() == old(self).symbols() + text(quoted(s@)),
            final(self).wf(),
    {
        let ghost start = self.symbols();
        self.push_char('"');
        proof {
            lemma_text_single('"');
            assert(s@.take(0) =~= Seq::<char>::empty());
            assert(seq!['"'] + escape(s@.take(0)) =~= seq!['"']);
        }
        for c in it: s.chars()
            invariant
                it.seq() == s@,
                self.wf(),
                self.symbols() == start + text(seq!['"'] + escape(it.seq().take(it.index() as int))),
        {
            let ghost before = seq!['"'] + escape(it.seq().take(it.index() as int));
            let ghost taken = it.seq().take(it.index() + 1);
            assert(taken.drop_last() =~= it.seq().take(it.index() as int));
            assert(taken.last() == c);
            if c == '"' {
                self.push_char('\\');
                self.push_char('"');
                proof {
                    lemma_text_push(before, '\\');
                    lemma_text_push(before.push('\\'), '"');
                    assert(seq!['"'] + escape(taken) =~= before.push('\\').push('"'));
                }
            } else {
                self.push_char(c);
                proof {
                    lemma_text_push(before, c);
                    assert(seq!['"'] + escape(taken) =~= before.push(c));
                }
            }
        }
        proof {
            assert(s@.take(s@.len() as int) =~= s@);
            lemma_text_push(seq!['"'] + escape(s@), '"');
            assert(quoted(s@) =~= (seq!['"'] + escape(s@)).push('"'));
        }
        self.push_char('"');
    }
}

/// Writes a value that is no array and no object.
fn write_scalar(value: &DataValue, out: &mut Writer)
    requires
        old(out).wf(),
    ensures
        final(out).symbols() == old(out).symbols() + scalar(value@),
        final(out).wf(),
{
    match value {
        DataValue::Null => out.push_str("null"),
        DataValue::Bool(b) => {
            if *b {
                out.push_str("true")
            } else {
                out.push_str("false")
            }
        },
        DataValue::Number(Number::Integer(i)) => {
            let mut digits = String::new();
            push_signed_decimal(&mut digits, *i);
            assert(digits@ =~= signed_decimal(*i as int));
            out.push_str(digits.as_str());
        },
        DataValue::Number(Number::Float(bits)) => out.push_float(*bits),
        DataValue::String(s) => out.push_quoted(s.as_str()),
        DataValue::DateTime(t) => {
            let stamp = t.to_rfc3339();
            out.push_str(stamp.as_str());
        },
        DataValue::Duration(d) => {
            let span = d.to_text();
            out.push_str(span.as_str());
        },
        _ => {
            assert(out.symbols() + Seq::<Symbol>::empty() =~= out.symbols());
        },
    }
}

/// Joining is associative.
proof fn lemma_join(a: Seq<Symbol>, b: Seq<Symbol>, c: Seq<Symbol>)
    ensures
        (a + b) + c == a + (b + c),
{
    assert((a + b) + c =~= a + (b + c));
}

/// Writes a comma, where `wanted`.
fn write_comma(wanted: bool, out: &mut Writer)
    requires
        old(out).wf(),
    ensures
        final(out).symbols() == old(out).symbols() + comma(wanted),
        final(out).wf(),
{
    if wanted {
        out.push_str(",");
    } else {
        assert(out.symbols() + Seq::<Symbol>::empty() =~= out.symbols());
    }
}

/// Writes one element of an array in the compact rendering.
fn write_compact_item(item: &DataValue, first: bool, out: &mut Writer)
    requires
        old(out).wf(),
    ensures
        final(out).symbols() == old(out).symbols() + compact_item(item@, first),
        final(out).wf(),
    decreases item, 1nat,
{
    let ghost start = out.symbols();
    write_comma(!first, out);
    write_compact(item, out);
    proof {
        lemma_join(start, comma(!first), item@.compact());
    }
}

/// Writes one pair of an object in the compact rendering.
fn write_compact_entry(key: &str, value: &DataValue, first: bool, out: &mut Writer)
    requires
        old(out).wf(),
    ensures
        final(out).symbols() == old(out).symbols() + compact_entry(key@, value@, first),
        final(out).wf(),
    decreases value, 1nat,
{
    let ghost start = out.symbols();
    write_comma(!first, out);
    out.push_quoted(key);
    out.push_str(":");
    write_compact(value, out);
    proof {
        let a = comma(!first);
        let b = text(quoted(key@));
        let c = text(":"@);
        let d = value@.compact();
        lemma_join(start, a, b);
        lemma_join(start, a + b, c);
        lemma_join(start, a + b + c, d);
    }
}

/// Writes the compact rendering of a value.
fn write_compact(value: &DataValue, out: &mut Writer)
    requires
        old(out).wf(),
    ensures
        final(out).symbols() == old(out).symbols() + value@.compact(),
        final(out).wf(),
    decreases value, 0nat,
{
    let ghost start = out.symbols();
    match value {
        DataValue::Array(items) => {
            out.push_str("[");
            let ghost open = out.symbols();
            assert(open + Seq::<Symbol>::empty() =~= open);
            let mut i: usize = 0;
            while i < items.len()
                invariant
                    i <= items@.len(),
                    out.wf(),
                    *value == DataValue::Array(*items),
                    out.symbols() == open + compact_items(value@->Array_0, i as nat),
                decreases items@.len() - i,
            {
                assert(decreases_to!(*value => value->Array_0));
                assert(decreases_to!(*items => items@[i as int]));
                assert(value@->Array_0[i as int] == items@[i as int]@);
                proof {
                    lemma_join(
                        open,
                        compact_items(value@->Array_0, i as nat),
                        compact_item(items@[i as int]@, i == 0),
                    );
                }
                write_compact_item(&items[i], i == 0, out);
                i = i + 1;
            }
            out.push_str("]");
            proof {
                lemma_join(start, text("["@), compact_items(value@->Array_0, i as nat));
            }
        },
        DataValue::Object(entries) => {
            out.push_str("{");
            let ghost open = out.symbols();
            assert(open + Seq::<Symbol>::empty() =~= open);
            let mut i: usize = 0;
            while i < entries.len()
                invariant
                    i <= entries@.len(),
                    out.wf(),
                    *value == DataValue::Object(*entries),
                    out.symbols() == open + compact_entries(value@->Object_0, i as nat),
                decreases entries@.len() - i,
            {
                assert(decreases_to!(*value => value->Object_0));
                assert(decreases_to!(*entries => entries@[i as int]));
                assert(value@->Object_0[i as int] == (entries@[i as int].0@, entries@[i as int].1@));
                proof {
                    lemma_join(
                        open,
                        compact_entries(value@->Object_0, i as nat),
                        compact_entry(entries@[i as int].0@, entries@[i as int].1@, i == 0),
                    );
                }
                write_compact_entry(entries[i].0.as_str(), &entries[i].1, i == 0, out);
                i = i + 1;
            }
            out.push_str("}");
            proof {
                lemma_join(start, text("{"@), compact_entries(value@->Object_0, i as nat));
            }
        },
        _ => write_scalar(value, out),
    }
}

/// Writes the line of one element of an array in the indented rendering.
fn write_item_line(item: &DataValue, pad: &str, more: bool, out: &mut Writer)
    requires
        old(out).wf(),
    ensures
        final(out).symbols() == old(out).symbols() + item_line(item@, pad@, more),
        final(out).wf(),
    decreases item, 1nat,
{
    let ghost start = out.symbols();
    out.push_str(pad);
    write_pretty(item, pad, out);
    write_comma(more, out);
    out.push_str("\n");
    proof {
        let a = text(pad@);
        let b = item@.pretty(pad@);
        let c = comma(more);
        let d = text("\n"@);
        lemma_join(start, a, b);
        lemma_join(start, a + b, c);
        lemma_join(start, a + b + c, d);
    }
}

/// Writes the line of one pair of an object in the indented rendering.
fn write_entry_line(key: &str, value: &DataValue, pad: &str, more: bool, out: &mut Writer)
    requires
        old(out).wf(),
    ensures
        final(out).symbols() == old(out).symbols() + entry_line(key@, value@, pad@, more),
        final(out).wf(),
    decreases value, 1nat,
{
    let ghost start = out.symbols();
    out.push_str(pad);
    out.push_quoted(key);
    out.push_str(": ");
    write_pretty(value, pad, out);
    write_comma(more, out);
    out.push_str("\n");
    proof {
        let a = text(pad@);
        let b = text(quoted(key@));
        let c = text(": "@);
        let d = value@.pretty(pad@);
        let e = comma(more);
        let f = text("\n"@);
        lemma_join(start, a, b);
        lemma_join(start, a + b, c);
        lemma_join(start, a + b + c, d);
        lemma_join(start, a + b + c + d, e);
        lemma_join(start, a + b + c + d + e, f);
    }
}

/// Writes the indented rendering of a value that stands at indentation `pad`.
fn write_pretty(value: &DataValue, pad: &str, out: &mut Writer)
    requires
        old(out).wf(),
    ensures
        final(out).symbols() == old(out).symbols() + value@.pretty(pad@),
        final(out).wf(),
    decreases value, 0nat,
{
    let ghost start = out.symbols();
    match value {
        DataValue::Array(items) => {
            if items.len() == 0 {
                out.push_str("[]");
                return ;
            }
            let mut deeper = String::from_str(pad);
            deeper.append("  ");
            out.push_str("[\n");
            let ghost open = out.symbols();
            assert(open + Seq::<Symbol>::empty() =~= open);
            let mut i: usize = 0;
            while i < items.len()
                invariant
                    i <= items@.len(),
                    out.wf(),
                    *value == DataValue::Array(*items),
                    deeper@ == pad@ + "  "@,
                    out.symbols() == open + pretty_items(value@->Array_0, i as nat, deeper@),
                decreases items@.len() - i,
            {
                assert(decreases_to!(*value => value->Array_0));
                assert(decreases_to!(*items => items@[i as int]));
                assert(value@->Array_0[i as int] == items@[i as int]@);
                let more = i < items.len() - 1;
                proof {
                    lemma_join(
                        open,
                        pretty_items(value@->Array_0, i as nat, deeper@),
                        item_line(items@[i as int]@, deeper@, more),
                    );
                }
                write_item_line(&items[i], deeper.as_str(), more, out);
                i = i + 1;
            }
            out.push_str(pad);
            out.push_str("]");
            proof {
                let lines = pretty_items(value@->Array_0, i as nat, deeper@);
                lemma_join(start, text("[\n"@), lines);
                lemma_join(start, text("[\n"@) + lines, text(pad@));
                lemma_join(start, text("[\n"@) + lines + text(pad@), text("]"@));
            }
        },
        DataValue::Object(entries) => {
            if entries.len() == 0 {
                out.push_str("{}");
                return ;
            }
            let mut deeper = String::from_str(pad);
            deeper.append("  ");
            out.push_str("{\n");
            let ghost open = out.symbols();
            assert(open + Seq::<Symbol>::empty() =~= open);
            let mut i: usize = 0;
            while i < entries.len()
                invariant
                    i <= entries@.len(),
                    out.wf(),
                    *value == DataValue::Object(*entries),
                    deeper@ == pad@ + "  "@,
                    out.symbols() == open + pretty_entries(value@->Object_0, i as nat, deeper@),
                decreases entries@.len() - i,
            {
                assert(decreases_to!(*value => value->Object_0));
                assert(decreases_to!(*entries => entries@[i as int]));
                assert(value@->Object_0[i as int] == (entries@[i as int].0@, entries@[i as int].1@));
                let more = i < entries.len() - 1;
                proof {
                    lemma_join(
                        open,
                        pretty_entries(value@->Object_0, i as nat, deeper@),
                        entry_line(entries@[i as int].0@, entries@[i as int].1@, deeper@, more),
                    );
                }
                write_entry_line(entries[i].0.as_str(), &entries[i].1, deeper.as_str(), more, out);
                i = i + 1;
            }
            out.push_str(pad);
            out.push_str("}");
            proof {
                let lines = pretty_entries(value@->Object_0, i as nat, deeper@);
                lemma_join(start, text("{\n"@), lines);
                lemma_join(start, text("{\n"@) + lines, text(pad@));
                lemma_join(start, text("{\n"@) + lines + text(pad@), text("}"@));
            }
        },
        _ => write_scalar(value, out),
    }
}

/// The compact rendering of a value, in pieces cut as far as can be.
pub fn to_string(value: &DataValue) -> (pieces: Vec<Piece>)
    ensures
        flatten(pieces@) == value@.compact(),
        canonical(pieces@),
{
    let mut out = Writer::new();
    write_compact(value, &mut out);
    out.finish()
}

/// The indented rendering of a value, in pieces cut as far as can be.
pub fn to_string_pretty(value: &DataValue) -> (pieces: Vec<Piece>)
    ensures
        flatten(pieces@) == value@.pretty(Seq::empty()),
        canonical(pieces@),
{
    let mut out = Writer::new();
    proof {
        reveal_strlit("");
        assert(""@ =~= Seq::<char>::empty());
    }
    write_pretty(value, "", &mut out);
    out.finish()
}

} // verus!
