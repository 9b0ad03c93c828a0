//! Segmentation scanner: splits a raw document into literal text, inline
//! statements and statement blocks, and drives the whole parse.
//!
//! The scanner makes one left-to-right pass with one character of lookahead.
//! `==` collapses to a literal `=`; `={ ... }` is cut out as a statement
//! block under balanced braces; `=name(...)` or a bare `=name` is cut out as
//! an inline statement under balanced parentheses. Splitting is lossless:
//! `lemma_scan_lossless` proves that the source regions of the spans,
//! concatenated in order, give back the document.
use vstd::prelude::*;

use crate::ast::TopNode;

verus! {

/// Relies on `String::push`: appends the character to the end of the string.
pub assume_specification[ String::push ](s: &mut String, c: char)
    ensures
        final(s)@ == old(s)@.push(c),
;

/// A span of the document: literal text (escapes already collapsed), the
/// source of one inline statement (without its leading `=`), or the source
/// of one statement block (delimiters included).
#[derive(Debug, PartialEq)]
pub enum Text {
    Text(String),
    Inline(String),
    StatementBlock(String),
}

/// Ghost mirror of a span.
pub enum SpanView {
    Text(Seq<char>),
    Inline(Seq<char>),
    Block(Seq<char>),
}

/// A scanner failure: a code region whose delimiters never balance before
/// the document ends.
#[derive(Debug, Clone, Copy, PartialEq, Eq, Structural)]
pub enum ScanError {
    UnterminatedBlock,
    UnterminatedInline,
}

pub open spec fn span_view(t: &Text) -> SpanView {
    match t {
        Text::Text(s) => SpanView::Text(s@),
        Text::Inline(s) => SpanView::Inline(s@),
        Text::StatementBlock(s) => SpanView::Block(s@),
    }
}

pub open spec fn spans_view(s: Seq<Text>, n: int) -> Seq<SpanView>
    decreases n,
{
    if n <= 0 || n > s.len() {
        Seq::empty()
    } else {
        spans_view(s, n - 1).push(span_view(&s[n - 1]))
    }
}

/// Characters an identifier may consist of.
pub open spec fn is_ident_char(c: char) -> bool {
    (('a' as u32) <= (c as u32) && (c as u32) <= ('z' as u32)) || (('A' as u32) <= (c as u32) && (
    c as u32) <= ('Z' as u32)) || (('0' as u32) <= (c as u32) && (c as u32) <= ('9' as u32)) || c
        == '_'
}

/// First position at or after `i` that does not hold an identifier
/// character.
pub open spec fn ident_end(s: Seq<char>, i: int) -> int
    decreases s.len() - i,
{
    if i < 0 || i >= s.len() {
        i
    } else if is_ident_char(s[i]) {
        ident_end(s, i + 1)
    } else {
        i
    }
}

/// Position one past the delimiter that brings the nesting depth to zero,
/// counting `open` up and `close` down from `depth`; `None` when the input
/// ends first.
pub open spec fn delim_end(s: Seq<char>, i: int, depth: int, open: char, close: char) -> Option<
    int,
>
    decreases s.len() - i,
{
    if i < 0 || i >= s.len() {
        None
    } else if s[i] == open {
        delim_end(s, i + 1, depth + 1, open, close)
    } else if s[i] == close {
        if depth <= 1 {
            Some(i + 1)
        } else {
            delim_end(s, i + 1, depth - 1, open, close)
        }
    } else {
        delim_end(s, i + 1, depth, open, close)
    }
}

pub proof fn lemma_ident_end_bounds(s: Seq<char>, i: int)
    requires
        0 <= i <= s.len(),
    ensures
        i <= ident_end(s, i) <= s.len(),
    decreases s.len() - i,
{
    if i < s.len() && is_ident_char(s[i]) {
        lemma_ident_end_bounds(s, i + 1);
    }
}

pub proof fn lemma_delim_end_bounds(s: Seq<char>, i: int, depth: int, open: char, close: char)
    requires
        0 <= i <= s.len(),
        delim_end(s, i, depth, open, close) is Some,
    ensures
        i < delim_end(s, i, depth, open, close)->Some_0 <= s.len(),
    decreases s.len() - i,
{
    if i < s.len() {
        if s[i] == open {
            lemma_delim_end_bounds(s, i + 1, depth + 1, open, close);
        } else if s[i] == close {
            if depth <= 1 {
            } else {
                lemma_delim_end_bounds(s, i + 1, depth - 1, open, close);
            }
        } else {
            lemma_delim_end_bounds(s, i + 1, depth, open, close);
        }
    }
}

/// The scan, from position `i`, with `acc` the literal text accumulated
/// since the last span was cut.
pub open spec fn scan_from(s: Seq<char>, i: int, acc: Seq<char>) -> Result<
    Seq<SpanView>,
    ScanError,
>
    decreases s.len() - i,
{
    if i < 0 || i >= s.len() {
        Ok(seq![SpanView::Text(acc)])
    } else if s[i] == '=' {
        if i + 1 < s.len() && s[i + 1] == '=' {
            scan_from(s, i + 2, acc.push('='))
        } else if i + 1 < s.len() && s[i + 1] == '{' {
            match delim_end(s, i + 2, 1, '{', '}') {
                Option::None => Err(ScanError::UnterminatedBlock),
                Option::Some(j) => {
                    proof {
                        lemma_delim_end_bounds(s, i + 2, 1, '{', '}');
                    }
                    match scan_from(s, j, Seq::empty()) {
                        Err(e) => Err(e),
                        Ok(rest) => Ok(
                            seq![SpanView::Text(acc), SpanView::Block(s.subrange(i, j))] + rest,
                        ),
                    }
                },
            }
        } else {
            let k = ident_end(s, i + 1);
            proof {
                lemma_ident_end_bounds(s, i + 1);
            }
            if k < s.len() && s[k] == '(' {
                match delim_end(s, k + 1, 1, '(', ')') {
                    Option::None => Err(ScanError::UnterminatedInline),
                    Option::Some(j) => {
                        proof {
                            lemma_delim_end_bounds(s, k + 1, 1, '(', ')');
                        }
                        match scan_from(s, j, Seq::empty()) {
                            Err(e) => Err(e),
                            Ok(rest) => Ok(
                                seq![SpanView::Text(acc), SpanView::Inline(s.subrange(i + 1, j))]
                                    + rest,
                            ),
                        }
                    },
                }
            } else {
                match scan_from(s, k, Seq::empty()) {
                    Err(e) => Err(e),
                    Ok(rest) => Ok(
                        seq![SpanView::Text(acc), SpanView::Inline(s.subrange(i + 1, k))] + rest,
                    ),
                }
            }
        }
    } else {
        scan_from(s, i + 1, acc.push(s[i]))
    }
}

/// The scan of a whole document.
pub open spec fn scan_spec(s: Seq<char>) -> Result<Seq<SpanView>, ScanError> {
    scan_from(s, 0, Seq::empty())
}

/// The source region a literal-text character came from: `=` came from the
/// escape `==`, every other character from itself.
pub open spec fn escape_char(c: char) -> Seq<char> {
    if c == '=' {
        seq!['=', '=']
    } else {
        seq![c]
    }
}

/// The source region a literal-text span came from.
pub open spec fn escape_text(t: Seq<char>, n: int) -> Seq<char>
    decreases n,
{
    if n <= 0 || n > t.len() {
        Seq::empty()
    } else {
        escape_text(t, n - 1) + escape_char(t[n - 1])
    }
}

/// The source region a span was cut from.
pub open spec fn span_source(sp: SpanView) -> Seq<char> {
    match sp {
        SpanView::Text(t) => escape_text(t, t.len() as int),
        SpanView::Inline(r) => seq!['='] + r,
        SpanView::Block(r) => r,
    }
}

/// The concatenated source regions of a span sequence.
pub open spec fn span_sources(sps: Seq<SpanView>, n: int) -> Seq<char>
    decreases n,
{
    if n <= 0 || n > sps.len() {
        Seq::empty()
    } else {
        span_sources(sps, n - 1) + span_source(sps[n - 1])
    }
}

proof fn lemma_escape_text_push(t: Seq<char>, c: char)
    ensures
        escape_text(t.push(c), t.len() as int + 1) == escape_text(t, t.len() as int) + escape_char(c),
    decreases t.len(),
{
    lemma_escape_text_prefix(t.push(c), t, t.len() as int);
    assert(t.push(c)[t.len() as int] == c);
}

proof fn lemma_escape_text_prefix(s: Seq<char>, t: Seq<char>, n: int)
    requires
        n <= s.len(),
        n <= t.len(),
        forall|k: int| 0 <= k < n ==> s[k] == t[k],
    ensures
        escape_text(s, n) == escape_text(t, n),
    decreases n,
{
    if n > 0 {
        lemma_escape_text_prefix(s, t, n - 1);
    }
}

proof fn lemma_span_sources_cons2(a: SpanView, b: SpanView, rest: Seq<SpanView>)
    ensures
        span_sources(seq![a, b] + rest, rest.len() as int + 2) == span_source(a) + span_source(b)
            + span_sources(rest, rest.len() as int),
    decreases rest.len(),
{
    let whole = seq![a, b] + rest;
    if rest.len() == 0 {
        assert(whole.len() == 2);
        assert(whole[0] == a);
        assert(whole[1] == b);
        assert(span_sources(whole, 0) == Seq::<char>::empty());
        assert(span_sources(whole, 2) == span_sources(whole, 1) + span_source(b));
        assert(span_sources(whole, 1) == span_sources(whole, 0) + span_source(a));
        assert(Seq::<char>::empty() + span_source(a) == span_source(a));
        assert(span_sources(rest, 0) == Seq::<char>::empty());
        assert(span_source(a) + span_source(b) + Seq::<char>::empty() == span_source(a)
            + span_source(b));
    } else {
        let rest2 = rest.drop_last();
        lemma_span_sources_cons2(a, b, rest2);
        let whole2 = seq![a, b] + rest2;
        assert(whole.drop_last() =~= whole2);
        assert(span_sources(whole, rest.len() as int + 2) == span_sources(whole, rest.len() as int + 1)
            + span_source(whole[rest.len() as int + 1]));
        lemma_span_sources_prefix(whole, whole2, rest.len() as int + 1);
        assert(whole[rest.len() as int + 1] == rest.last());
        assert(span_sources(rest, rest.len() as int) == span_sources(rest, rest.len() as int - 1)
            + span_source(rest[rest.len() as int - 1]));
        lemma_span_sources_prefix(rest, rest2, rest.len() as int - 1);
        assert(span_source(a) + span_source(b) + (span_sources(rest2, rest2.len() as int)
            + span_source(rest.last())) == (span_source(a) + span_source(b) + span_sources(
            rest2,
            rest2.len() as int,
        )) + span_source(rest.last()));
    }
}

proof fn lemma_span_sources_prefix(s: Seq<SpanView>, t: Seq<SpanView>, n: int)
    requires
        n <= s.len(),
        n <= t.len(),
        forall|k: int| 0 <= k < n ==> s[k] == t[k],
    ensures
        span_sources(s, n) == span_sources(t, n),
    decreases n,
{
    if n > 0 {
        lemma_span_sources_prefix(s, t, n - 1);
    }
}

/// Losslessness: when the scan succeeds from position `i`, the source
/// regions of the produced spans, concatenated in order, are exactly the
/// source of the accumulated literal text followed by the rest of the
/// document.
pub proof fn lemma_scan_from_lossless(s: Seq<char>, i: int, acc: Seq<char>)
    requires
        0 <= i <= s.len(),
        scan_from(s, i, acc) is Ok,
    ensures
        span_sources(scan_from(s, i, acc)->Ok_0, scan_from(s, i, acc)->Ok_0.len() as int)
            == escape_text(acc, acc.len() as int) + s.subrange(i, s.len() as int),
    decreases s.len() - i,
{
    let tail = s.subrange(i, s.len() as int);
    if i >= s.len() {
        let sps = seq![SpanView::Text(acc)];
        assert(span_sources(sps, 1) == span_sources(sps, 0) + span_source(sps[0]));
        assert(tail =~= Seq::<char>::empty());
        assert(Seq::<char>::empty() + escape_text(acc, acc.len() as int) == escape_text(
            acc,
            acc.len() as int,
        ) + tail);
    } else if s[i] == '=' {
        if i + 1 < s.len() && s[i + 1] == '=' {
            lemma_scan_from_lossless(s, i + 2, acc.push('='));
            lemma_escape_text_push(acc, '=');
            assert(escape_text(acc, acc.len() as int) + seq!['=', '='] + s.subrange(
                i + 2,
                s.len() as int,
            ) =~= escape_text(acc, acc.len() as int) + tail);
        } else if i + 1 < s.len() && s[i + 1] == '{' {
            let j = delim_end(s, i + 2, 1, '{', '}')->Some_0;
            lemma_delim_end_bounds(s, i + 2, 1, '{', '}');
            lemma_scan_from_lossless(s, j, Seq::empty());
            let rest = scan_from(s, j, Seq::empty())->Ok_0;
            lemma_span_sources_cons2(SpanView::Text(acc), SpanView::Block(s.subrange(i, j)), rest);
            assert(escape_text(Seq::empty(), 0) == Seq::<char>::empty());
            assert(span_sources(rest, rest.len() as int) == Seq::<char>::empty() + s.subrange(
                j,
                s.len() as int,
            ));
            assert(Seq::<char>::empty() + s.subrange(j, s.len() as int) =~= s.subrange(
                j,
                s.len() as int,
            ));
            assert(escape_text(acc, acc.len() as int) + s.subrange(i, j) + s.subrange(
                j,
                s.len() as int,
            ) =~= escape_text(acc, acc.len() as int) + tail);
        } else {
            let k = ident_end(s, i + 1);
            lemma_ident_end_bounds(s, i + 1);
            if k < s.len() && s[k] == '(' {
                let j = delim_end(s, k + 1, 1, '(', ')')->Some_0;
                lemma_delim_end_bounds(s, k + 1, 1, '(', ')');
                lemma_scan_from_lossless(s, j, Seq::empty());
                let rest = scan_from(s, j, Seq::empty())->Ok_0;
                lemma_span_sources_cons2(
                    SpanView::Text(acc),
                    SpanView::Inline(s.subrange(i + 1, j)),
                    rest,
                );
                assert(span_sources(rest, rest.len() as int) =~= s.subrange(j, s.len() as int));
                assert(escape_text(acc, acc.len() as int) + (seq!['='] + s.subrange(i + 1, j))
                    + s.subrange(j, s.len() as int) =~= escape_text(acc, acc.len() as int) + tail);
            } else {
                lemma_scan_from_lossless(s, k, Seq::empty());
                let rest = scan_from(s, k, Seq::empty())->Ok_0;
                lemma_span_sources_cons2(
                    SpanView::Text(acc),
                    SpanView::Inline(s.subrange(i + 1, k)),
                    rest,
                );
                assert(span_sources(rest, rest.len() as int) =~= s.subrange(k, s.len() as int));
                assert(escape_text(acc, acc.len() as int) + (seq!['='] + s.subrange(i + 1, k))
                    + s.subrange(k, s.len() as int) =~= escape_text(acc, acc.len() as int) + tail);
            }
        }
    } else {
        lemma_scan_from_lossless(s, i + 1, acc.push(s[i]));
        lemma_escape_text_push(acc, s[i]);
        assert(escape_text(acc, acc.len() as int) + seq![s[i]] + s.subrange(i + 1, s.len() as int)
            =~= escape_text(acc, acc.len() as int) + tail);
    }
}

/// Losslessness for a whole document: the span sources give back the
/// document character for character.
pub proof fn lemma_scan_lossless(s: Seq<char>)
    requires
        scan_spec(s) is Ok,
    ensures
        span_sources(scan_spec(s)->Ok_0, scan_spec(s)->Ok_0.len() as int) == s,
{
    lemma_scan_from_lossless(s, 0, Seq::empty());
    assert(escape_text(Seq::empty(), 0) == Seq::<char>::empty());
    assert(Seq::<char>::empty() + s.subrange(0, s.len() as int) =~= s);
}

pub open spec fn scan_result_view(r: &Result<Vec<Text>, ScanError>) -> Result<
    Seq<SpanView>,
    ScanError,
> {
    match r {
        Ok(v) => Ok(spans_view(v@, v@.len() as int)),
        Err(e) => Err(*e),
    }
}

proof fn lemma_spans_view_prefix(s: Seq<Text>, t: Seq<Text>, n: int)
    requires
        n <= s.len(),
        n <= t.len(),
        forall|k: int| 0 <= k < n ==> s[k] == t[k],
    ensures
        spans_view(s, n) == spans_view(t, n),
    decreases n,
{
    if n > 0 {
        lemma_spans_view_prefix(s, t, n - 1);
    }
}

proof fn lemma_spans_view_concat(a: Seq<Text>, b: Seq<Text>)
    ensures
        spans_view(a + b, a.len() as int + b.len() as int) == spans_view(a, a.len() as int) + spans_view(
            b,
            b.len() as int,
        ),
    decreases b.len(),
{
    if b.len() == 0 {
        assert(a + b =~= a);
        lemma_spans_view_prefix(a + b, a, a.len() as int);
        assert(spans_view(b, 0) == Seq::<SpanView>::empty());
        assert(spans_view(a, a.len() as int) + Seq::<SpanView>::empty() =~= spans_view(
            a,
            a.len() as int,
        ));
    } else {
        let b2 = b.drop_last();
        lemma_spans_view_concat(a, b2);
        let whole = a + b;
        let whole2 = a + b2;
        assert(spans_view(whole, a.len() as int + b.len() as int) == spans_view(whole, a.len() as int + b.len() as int - 1)
            + seq![span_view(&whole[a.len() as int + b.len() as int - 1])]);
        lemma_spans_view_prefix(whole, whole2, a.len() as int + b.len() as int - 1);
        assert(whole[a.len() as int + b.len() as int - 1] == b.last());
        assert(spans_view(b, b.len() as int) == spans_view(b, b.len() as int - 1) + seq![
            span_view(&b[b.len() as int - 1]),
        ]);
        lemma_spans_view_prefix(b, b2, b.len() as int - 1);
        assert(spans_view(a, a.len() as int) + (spans_view(b2, b2.len() as int) + seq![
            span_view(&b.last()),
        ]) =~= (spans_view(a, a.len() as int) + spans_view(b2, b2.len() as int)) + seq![
            span_view(&b.last()),
        ]);
    }
}

pub(crate) fn ident_end_exec(doc: &str, len: usize, i: usize) -> (r: usize)
    requires
        len == doc@.len(),
        i <= len,
    ensures
        r == ident_end(doc@, i as int),
        i <= r <= len,
    decreases len - i,
{
    if i < len {
        let c = doc.get_char(i);
        if (c as u32 >= 'a' as u32 && c as u32 <= 'z' as u32) || (c as u32 >= 'A' as u32 && c
            as u32 <= 'Z' as u32) || (c as u32 >= '0' as u32 && c as u32 <= '9' as u32) || c == '_'
        {
            return ident_end_exec(doc, len, i + 1);
        }
    }
    i
}

fn delim_end_exec(doc: &str, len: usize, i: usize, depth: usize, open: char, close: char) -> (r:
    Option<usize>)
    requires
        len == doc@.len(),
        len < usize::MAX - 1,
        i <= len,
        depth <= i + 1,
    ensures
        match r {
            Option::Some(j) => delim_end(doc@, i as int, depth as int, open, close) == Option::Some(
                j as int,
            ) && i < j <= len,
            Option::None => delim_end(doc@, i as int, depth as int, open, close)
                is None,
        },
    decreases len - i,
{
    if i >= len {
        return Option::None;
    }
    let c = doc.get_char(i);
    if c == open {
        let r = delim_end_exec(doc, len, i + 1, depth + 1, open, close);
        proof {
            if r is Some {
                lemma_delim_end_bounds(doc@, i as int, depth as int, open, close);
            }
        }
        r
    } else if c == close {
        if depth <= 1 {
            Option::Some(i + 1)
        } else {
            let r = delim_end_exec(doc, len, i + 1, depth - 1, open, close);
            proof {
                if r is Some {
                    lemma_delim_end_bounds(doc@, i as int, depth as int, open, close);
                }
            }
            r
        }
    } else {
        let r = delim_end_exec(doc, len, i + 1, depth, open, close);
        proof {
            if r is Some {
                lemma_delim_end_bounds(doc@, i as int, depth as int, open, close);
            }
        }
        r
    }
}

fn scan_text_from(doc: &str, len: usize, i: usize, acc: String) -> (r: Result<Vec<Text>, ScanError>)
    requires
        len == doc@.len(),
        len < usize::MAX - 1,
        i <= len,
    ensures
        scan_result_view(&r) == scan_from(doc@, i as int, acc@),
    decreases len - i,
{
    if i >= len {
        let mut v: Vec<Text> = Vec::new();
        v.push(Text::Text(acc));
        proof {
            assert(spans_view(v@, 0) == Seq::<SpanView>::empty());
            assert(spans_view(v@, 1) == spans_view(v@, 0).push(span_view(&v@[0])));
            assert(spans_view(v@, 1) =~= seq![SpanView::Text(acc@)]);
        }
        return Ok(v);
    }
    let c = doc.get_char(i);
    if c == '=' {
        let has_next = i + 1 < len;
        let c2 = if has_next {
            doc.get_char(i + 1)
        } else {
            '\0'
        };
        if has_next && c2 == '=' {
            let mut acc2 = acc;
            acc2.push('=');
            scan_text_from(doc, len, i + 2, acc2)
        } else if has_next && c2 == '{' {
            match delim_end_exec(doc, len, i + 2, 1, '{', '}') {
                Option::None => Err(ScanError::UnterminatedBlock),
                Option::Some(j) => {
                    let raw = doc.substring_char(i, j).to_owned();
                    match scan_text_from(doc, len, j, String::new()) {
                        Err(e) => Err(e),
                        Ok(mut rest) => {
                            let mut out: Vec<Text> = Vec::new();
                            out.push(Text::Text(acc));
                            out.push(Text::StatementBlock(raw));
                            let ghost head = out@;
                            let ghost tail = rest@;
                            out.append(&mut rest);
                            proof {
                                lemma_spans_view_concat(head, tail);
                                assert(spans_view(head, 0) == Seq::<SpanView>::empty());
                                assert(spans_view(head, 1) == spans_view(head, 0).push(
                                    span_view(&head[0]),
                                ));
                                assert(spans_view(head, 2) == spans_view(head, 1).push(
                                    span_view(&head[1]),
                                ));
                                assert(spans_view(head, 2) =~= seq![
                                    SpanView::Text(acc@),
                                    SpanView::Block(doc@.subrange(i as int, j as int)),
                                ]);
                            }
                            Ok(out)
                        },
                    }
                },
            }
        } else {
            let k = ident_end_exec(doc, len, i + 1);
            let at_paren = k < len && doc.get_char(k) == '(';
            if at_paren {
                match delim_end_exec(doc, len, k + 1, 1, '(', ')') {
                    Option::None => Err(ScanError::UnterminatedInline),
                    Option::Some(j) => {
                        let raw = doc.substring_char(i + 1, j).to_owned();
                        match scan_text_from(doc, len, j, String::new()) {
                            Err(e) => Err(e),
                            Ok(mut rest) => {
                                let mut out: Vec<Text> = Vec::new();
                                out.push(Text::Text(acc));
                                out.push(Text::Inline(raw));
                                let ghost head = out@;
                                let ghost tail = rest@;
                                out.append(&mut rest);
                                proof {
                                    lemma_spans_view_concat(head, tail);
                                    assert(spans_view(head, 0) == Seq::<SpanView>::empty());
                                    assert(spans_view(head, 1) == spans_view(head, 0).push(
                                        span_view(&head[0]),
                                    ));
                                    assert(spans_view(head, 2) == spans_view(head, 1).push(
                                        span_view(&head[1]),
                                    ));
                                    assert(spans_view(head, 2) =~= seq![
                                        SpanView::Text(acc@),
                                        SpanView::Inline(doc@.subrange(i + 1 as int, j as int)),
                                    ]);
                                }
                                Ok(out)
                            },
                        }
                    },
                }
            } else {
                let raw = doc.substring_char(i + 1, k).to_owned();
                match scan_text_from(doc, len, k, String::new()) {
                    Err(e) => Err(e),
                    Ok(mut rest) => {
                        let mut out: Vec<Text> = Vec::new();
                        out.push(Text::Text(acc));
                        out.push(Text::Inline(raw));
                        let ghost head = out@;
                        let ghost tail = rest@;
                        out.append(&mut rest);
                        proof {
                            lemma_spans_view_concat(head, tail);
                            assert(spans_view(head, 0) == Seq::<SpanView>::empty());
                            assert(spans_view(head, 1) == spans_view(head, 0).push(
                                span_view(&head[0]),
                            ));
                            assert(spans_view(head, 2) == spans_view(head, 1).push(
                                span_view(&head[1]),
                            ));
                            assert(spans_view(head, 2) =~= seq![
                                SpanView::Text(acc@),
                                SpanView::Inline(doc@.subrange(i + 1 as int, k as int)),
                            ]);
                        }
                        Ok(out)
                    },
                }
            }
        }
    } else {
        let mut acc2 = acc;
        acc2.push(c);
        scan_text_from(doc, len, i + 1, acc2)
    }
}

/// A failure anywhere in the pipeline: scanning, grammar, or evaluation.
#[derive(Debug, PartialEq)]
pub enum DocumentError {
    Scan(ScanError),
    Syntax(crate::grammar::SyntaxError),
    Eval(crate::visitor::EvalError),
}

/// Ghost mirror of `DocumentError`; a grammar failure carries its position
/// within the offending span.
pub enum DocErrView {
    Scan(ScanError),
    Syntax(int),
    Eval(crate::visitor::ErrView),
}

pub open spec fn doc_err_view(e: &DocumentError) -> DocErrView {
    match e {
        DocumentError::Scan(se) => DocErrView::Scan(*se),
        DocumentError::Syntax(se) => DocErrView::Syntax(se.position as int),
        DocumentError::Eval(ee) => DocErrView::Eval(crate::visitor::err_view(ee)),
    }
}

/// The document tree built from the spans: literal text and inline
/// statements gather into text blocks; each statement block stands alone.
pub open spec fn sp_build(
    spans: Seq<SpanView>,
    i: int,
    cur: Seq<crate::ast::TextView>,
    acc: Seq<crate::ast::TopView>,
) -> Result<Seq<crate::ast::TopView>, DocErrView>
    decreases spans.len() - i,
{
    if i < 0 || i >= spans.len() {
        Ok(acc.push(crate::ast::TopView::TextBlock(cur)))
    } else {
        match spans[i] {
            SpanView::Text(t) => sp_build(
                spans,
                i + 1,
                cur.push(crate::ast::TextView::Text(t)),
                acc,
            ),
            SpanView::Inline(src) => match crate::grammar::sp_parse_inline(src) {
                Err(p) => Err(DocErrView::Syntax(p)),
                Ok(iv) => sp_build(
                    spans,
                    i + 1,
                    cur.push(crate::ast::TextView::InlineStatement(iv)),
                    acc,
                ),
            },
            SpanView::Block(src) => match crate::grammar::sp_parse_statement_block(src) {
                Err(p) => Err(DocErrView::Syntax(p)),
                Ok(stmts) => sp_build(
                    spans,
                    i + 1,
                    Seq::empty(),
                    acc.push(crate::ast::TopView::TextBlock(cur)).push(
                        crate::ast::TopView::StatementBlock(stmts),
                    ),
                ),
            },
        }
    }
}

/// What parsing a whole document yields.
pub open spec fn sp_parse_document(s: Seq<char>) -> Result<Seq<crate::ast::TopView>, DocErrView> {
    match scan_spec(s) {
        Err(e) => Err(DocErrView::Scan(e)),
        Ok(spans) => sp_build(spans, 0, Seq::empty(), Seq::empty()),
    }
}

/// Splits a document into its spans.
pub fn scan(doc: &str) -> (r: Result<Vec<Text>, ScanError>)
    requires
        doc@.len() < usize::MAX - 1,
    ensures
        scan_result_view(&r) == scan_spec(doc@),
{
    let len = doc.unicode_len();
    scan_text_from(doc, len, 0, String::new())
}

proof fn lemma_ast_texts_view_prefix(s: Seq<crate::ast::Text>, t: Seq<crate::ast::Text>, n: int)
    requires
        n <= s.len(),
        n <= t.len(),
        forall|k: int| 0 <= k < n ==> s[k] == t[k],
    ensures
        crate::ast::texts_view(s, n) == crate::ast::texts_view(t, n),
    decreases n,
{
    if n > 0 {
        lemma_ast_texts_view_prefix(s, t, n - 1);
    }
}

proof fn lemma_ast_texts_view_push(s: Seq<crate::ast::Text>, x: crate::ast::Text)
    ensures
        crate::ast::texts_view(s.push(x), s.len() as int + 1) == crate::ast::texts_view(
            s,
            s.len() as int,
        ).push(crate::ast::text_view(&x)),
{
    lemma_ast_texts_view_prefix(s.push(x), s, s.len() as int);
    assert(s.push(x)[s.len() as int] == x);
}

proof fn lemma_ast_tops_view_prefix(s: Seq<crate::ast::TopLevel>, t: Seq<crate::ast::TopLevel>, n: int)
    requires
        n <= s.len(),
        n <= t.len(),
        forall|k: int| 0 <= k < n ==> s[k] == t[k],
    ensures
        crate::ast::tops_view(s, n) == crate::ast::tops_view(t, n),
    decreases n,
{
    if n > 0 {
        lemma_ast_tops_view_prefix(s, t, n - 1);
    }
}

proof fn lemma_ast_tops_view_push(s: Seq<crate::ast::TopLevel>, x: crate::ast::TopLevel)
    ensures
        crate::ast::tops_view(s.push(x), s.len() as int + 1) == crate::ast::tops_view(
            s,
            s.len() as int,
        ).push(crate::ast::toplevel_view(&x)),
{
    lemma_ast_tops_view_prefix(s.push(x), s, s.len() as int);
    assert(s.push(x)[s.len() as int] == x);
}

#[verifier::rlimit(60)]
fn build_tree(spans: &Vec<Text>) -> (r: Result<TopNode, DocumentError>)
    ensures
        match r {
            Ok(t) => sp_build(
                spans_view(spans@, spans@.len() as int),
                0,
                Seq::empty(),
                Seq::empty(),
            ) == Ok::<_, DocErrView>(crate::ast::topnode_view(&t)),
            Err(e) => sp_build(
                spans_view(spans@, spans@.len() as int),
                0,
                Seq::empty(),
                Seq::empty(),
            ) == Err::<Seq<crate::ast::TopView>, _>(doc_err_view(&e)),
        },
{
    let ghost spansv = spans_view(spans@, spans@.len() as int);
    proof {
        lemma_spans_view_len(spans@, spans@.len() as int);
    }
    let n = spans.len();
    let mut cur: Vec<crate::ast::Text> = Vec::new();
    let mut acc: Vec<crate::ast::TopLevel> = Vec::new();
    let mut k: usize = 0;
    proof {
        assert(crate::ast::texts_view(cur@, 0) =~= Seq::<crate::ast::TextView>::empty());
        assert(crate::ast::tops_view(acc@, 0) =~= Seq::<crate::ast::TopView>::empty());
    }
    while k < n
        invariant
            n == spans@.len(),
            k <= n,
            spansv == spans_view(spans@, spans@.len() as int),
            spansv.len() == n,
            sp_build(
                spansv,
                k as int,
                crate::ast::texts_view(cur@, cur@.len() as int),
                crate::ast::tops_view(acc@, acc@.len() as int),
            ) == sp_build(spansv, 0, Seq::empty(), Seq::empty()),
        decreases n - k,
    {
        proof {
            lemma_spans_view_index(spans@, spans@.len() as int, k as int);
        }
        let ghost cur0 = cur@;
        let ghost acc0 = acc@;
        match &spans[k] {
            Text::Text(t) => {
                cur.push(crate::ast::Text::Text(t.clone()));
                proof {
                    lemma_ast_texts_view_push(cur0, cur@[cur0.len() as int]);
                }
            },
            Text::Inline(src) => {
                match crate::grammar::parse_inline(src.as_str()) {
                    Err(e) => {
                        return Err(DocumentError::Syntax(e));
                    },
                    Ok(il) => {
                        cur.push(crate::ast::Text::InlineStatement(il));
                        proof {
                            lemma_ast_texts_view_push(cur0, cur@[cur0.len() as int]);
                        }
                    },
                }
            },
            Text::StatementBlock(src) => {
                match crate::grammar::parse_statement_block(src.as_str()) {
                    Err(e) => {
                        return Err(DocumentError::Syntax(e));
                    },
                    Ok(b) => {
                        let tb = crate::ast::TextBlock { text: cur };
                        acc.push(crate::ast::TopLevel::TextBlock(Box::new(tb)));
                        let ghost acc1 = acc@;
                        acc.push(crate::ast::TopLevel::StatementBlock(Box::new(b)));
                        cur = Vec::new();
                        proof {
                            lemma_ast_tops_view_push(acc0, acc1[acc0.len() as int]);
                            lemma_ast_tops_view_push(acc1, acc@[acc1.len() as int]);
                            assert(crate::ast::texts_view(cur@, 0)
                                =~= Seq::<crate::ast::TextView>::empty());
                        }
                    },
                }
            },
        }
        k = k + 1;
    }
    let tb = crate::ast::TextBlock { text: cur };
    let ghost acc0 = acc@;
    acc.push(crate::ast::TopLevel::TextBlock(Box::new(tb)));
    proof {
        lemma_ast_tops_view_push(acc0, acc@[acc0.len() as int]);
    }
    Ok(TopNode { tree: acc })
}

proof fn lemma_spans_view_len(s: Seq<Text>, n: int)
    requires
        0 <= n <= s.len(),
    ensures
        spans_view(s, n).len() == n,
    decreases n,
{
    if n > 0 {
        lemma_spans_view_len(s, n - 1);
    }
}

proof fn lemma_spans_view_index(s: Seq<Text>, n: int, i: int)
    requires
        0 <= i < n <= s.len(),
    ensures
        spans_view(s, n).len() == n,
        spans_view(s, n)[i] == span_view(&s[i]),
    decreases n,
{
    lemma_spans_view_len(s, n);
    if i < n - 1 {
        lemma_spans_view_index(s, n - 1, i);
    }
}

/// Holds a document and, once scanned, its spans.
#[derive(Debug, PartialEq)]
pub struct Parser {
    pub content: String,
    pub split: Vec<Text>,
}

impl Parser {
    pub fn new(input: String) -> (r: Self)
        ensures
            r.content@ == input@,
            r.split@ == Seq::<Text>::empty(),
    {
        Parser { content: input, split: Vec::new() }
    }

    /// Scans the document into spans, kept in `split`.
    pub fn split_content(&mut self) -> (r: Result<(), ScanError>)
        requires
            old(self).content@.len() < usize::MAX - 1,
        ensures
            final(self).content@ == old(self).content@,
            match r {
                Ok(()) => scan_spec(old(self).content@) == Ok::<_, ScanError>(
                    spans_view(final(self).split@, final(self).split@.len() as int),
                ),
                Err(e) => scan_spec(old(self).content@) == Err::<Seq<SpanView>, _>(e)
                    && final(self).split@ == old(self).split@,
            },
    {
        match scan(self.content.as_str()) {
            Ok(v) => {
                self.split = v;
                Ok(())
            },
            Err(e) => Err(e),
        }
    }

    /// Scans and parses the whole document into its tree.
    pub fn parse(&mut self) -> (r: Result<TopNode, DocumentError>)
        requires
            old(self).content@.len() < usize::MAX - 1,
        ensures
            final(self).content@ == old(self).content@,
            match r {
                Ok(t) => sp_parse_document(old(self).content@) == Ok::<_, DocErrView>(
                    crate::ast::topnode_view(&t),
                ),
                Err(e) => sp_parse_document(old(self).content@) == Err::<
                    Seq<crate::ast::TopView>,
                    _,
                >(doc_err_view(&e)),
            },
    {
        match self.split_content() {
            Err(e) => Err(DocumentError::Scan(e)),
            Ok(()) => build_tree(&self.split),
        }
    }
}

/// What rendering a whole document yields: the final variable bindings and
/// the output text, or the first error.
pub open spec fn sp_render_document(s: Seq<char>, env: crate::visitor::EnvView) -> Result<
    (Map<Seq<char>, crate::visitor::ValueView>, Seq<char>),
    DocErrView,
> {
    match sp_parse_document(s) {
        Err(e) => Err(e),
        Ok(tops) => match crate::visitor::sp_eval_document(env, tops) {
            Err(e) => Err(DocErrView::Eval(e)),
            Ok((vm, out)) => Ok((vm, out)),
        },
    }
}

/// The single entry point: scans, parses and evaluates a document against
/// the given environment, returning the rendered text or the first error.
/// On an error the environment is left as it was.
pub fn render_document(input: &str, v: &mut crate::visitor::Visitor) -> (r: Result<
    String,
    DocumentError,
>)
    requires
        input@.len() < usize::MAX - 1,
    ensures
        match r {
            Ok(out) => sp_render_document(input@, crate::visitor::visitor_view(old(v))) == Ok::<
                _,
                DocErrView,
            >((crate::visitor::vars_map(final(v).variables@), out@))
                && final(v).functions == old(v).functions
                && final(v).builtins == old(v).builtins,
            Err(e) => sp_render_document(input@, crate::visitor::visitor_view(old(v))) == Err::<
                (Map<Seq<char>, crate::visitor::ValueView>, Seq<char>),
                _,
            >(doc_err_view(&e)) && *final(v) == *old(v),
        },
{
    let mut p = Parser::new(input.to_owned());
    match p.parse() {
        Err(e) => Err(e),
        Ok(tree) => match v.evaluate_document(&tree) {
            Err(e) => Err(DocumentError::Eval(e)),
            Ok(out) => Ok(out),
        },
    }
}

} // verus!
