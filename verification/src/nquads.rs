//! A line-based N-Quads / N-Triples codec: one statement per line, terms
//! written as `<iri>`, `_:id` or a quoted literal with `@lang` or `^^<iri>`,
//! and a closing dot. The grammar each parser accepts is the spec function
//! it is proved against.

use crate::term::{BlankNode, GraphName, Literal, NamedNode, Quad, QuadV, Subject, Term, TermV};
use vstd::prelude::*;

verus! {

// Serialization.
/// The escape of one literal character.
pub open spec fn escape_char(c: char) -> Seq<char> {
    if c == '\\' {
        seq!['\\', '\\']
    } else if c == '"' {
        seq!['\\', '"']
    } else if c == '\n' {
        seq!['\\', 'n']
    } else if c == '\r' {
        seq!['\\', 'r']
    } else {
        seq![c]
    }
}

/// The escaped form of a literal lexical form.
pub open spec fn escape_str(s: Seq<char>) -> Seq<char>
    decreases s.len(),
{
    if s.len() == 0 {
        Seq::empty()
    } else {
        escape_str(s.drop_last()) + escape_char(s.last())
    }
}

/// The written form of one term. The default-graph marker writes nothing:
/// it is expressed by omitting the graph position.
pub open spec fn serialize_term(t: TermV) -> Seq<char> {
    match t {
        TermV::Named { iri } => seq!['<'] + iri + seq!['>'],
        TermV::Blank { id } => seq!['_', ':'] + id,
        TermV::Simple { value } => seq!['"'] + escape_str(value) + seq!['"'],
        TermV::Lang { value, language } => seq!['"'] + escape_str(value) + seq!['"', '@']
            + language,
        TermV::Typed { value, datatype } => seq!['"'] + escape_str(value) + seq!['"', '^', '^', '<']
            + datatype + seq!['>'],
        TermV::DefaultGraph => Seq::empty(),
    }
}

/// The written form of one statement, without the line break.
pub open spec fn serialize_quad(q: QuadV) -> Seq<char> {
    serialize_term(q.subject) + seq![' '] + serialize_term(q.predicate) + seq![' ']
        + serialize_term(q.object) + (if q.graph_name is DefaultGraph {
        Seq::empty()
    } else {
        seq![' '] + serialize_term(q.graph_name)
    }) + seq![' ', '.']
}

/// The written form of a statement list, one line each.
pub open spec fn serialize_dataset(qs: Seq<QuadV>) -> Seq<char>
    decreases qs.len(),
{
    if qs.len() == 0 {
        Seq::empty()
    } else {
        serialize_dataset(qs.drop_last()) + serialize_quad(qs.last()) + seq!['\n']
    }
}

/// Appends the escaped form of `value` to `out`.
fn write_escaped(out: &mut String, value: &str)
    ensures
        final(out)@ == old(out)@ + escape_str(value@),
{
    let n = value.unicode_len();
    let mut i: usize = 0;
    proof {
        assert(value@.take(0) =~= Seq::<char>::empty());
        assert(old(out)@ + escape_str(value@.take(0)) =~= old(out)@);
    }
    while i < n
        invariant
            n == value@.len(),
            0 <= i <= n,
            out@ == old(out)@ + escape_str(value@.take(i as int)),
        decreases n - i,
    {
        proof {
            reveal_strlit("\\\\");
            reveal_strlit("\\\"");
            reveal_strlit("\\n");
            reveal_strlit("\\r");
        }
        let c = value.get_char(i);
        if c == '\\' {
            out.append("\\\\");
        } else if c == '"' {
            out.append("\\\"");
        } else if c == '\n' {
            out.append("\\n");
        } else if c == '\r' {
            out.append("\\r");
        } else {
            let piece = value.substring_char(i, i + 1);
            proof {
                assert(piece@ =~= seq![c]);
            }
            out.append(piece);
        }
        proof {
            assert(value@.take(i + 1).drop_last() =~= value@.take(i as int));
            assert(value@.take(i + 1).last() == value@[i as int]);
            assert(out@ =~= old(out)@ + escape_str(value@.take(i + 1)));
        }
        i = i + 1;
    }
    proof {
        assert(value@.take(n as int) =~= value@);
    }
}

/// Appends the written form of a term.
fn write_term_text(out: &mut String, t: &Term)
    ensures
        final(out)@ == old(out)@ + serialize_term(t@),
{
    proof {
        reveal_strlit("<");
        reveal_strlit(">");
        reveal_strlit("_:");
        reveal_strlit("\"");
        reveal_strlit("\"@");
        reveal_strlit("\"^^<");
    }
    match t {
        Term::NamedNode(n) => {
            out.append("<");
            out.append(n.iri.as_str());
            out.append(">");
            proof {
                assert(out@ =~= old(out)@ + serialize_term(t@));
            }
        },
        Term::BlankNode(b) => {
            out.append("_:");
            out.append(b.id.as_str());
            proof {
                assert(out@ =~= old(out)@ + serialize_term(t@));
            }
        },
        Term::Literal(l) => {
            match l {
                Literal::Simple { value } => {
                    out.append("\"");
                    write_escaped(out, value.as_str());
                    out.append("\"");
                    proof {
                        assert(out@ =~= old(out)@ + serialize_term(t@));
                    }
                },
                Literal::LanguageTagged { value, language } => {
                    out.append("\"");
                    write_escaped(out, value.as_str());
                    out.append("\"@");
                    out.append(language.as_str());
                    proof {
                        assert(out@ =~= old(out)@ + serialize_term(t@));
                    }
                },
                Literal::Typed { value, datatype } => {
                    out.append("\"");
                    write_escaped(out, value.as_str());
                    out.append("\"^^<");
                    out.append(datatype.iri.as_str());
                    out.append(">");
                    proof {
                        assert(out@ =~= old(out)@ + serialize_term(t@));
                    }
                },
            }
        },
    }
}

/// Appends one statement line, including the line break.
pub fn write_quad_line(out: &mut String, q: &Quad)
    ensures
        final(out)@ == old(out)@ + serialize_quad(q@) + seq!['\n'],
{
    proof {
        reveal_strlit(" ");
        reveal_strlit(" .\n");
        reveal_strlit("<");
        reveal_strlit(">");
        reveal_strlit("_:");
    }
    let subject_term = match &q.subject {
        Subject::NamedNode(n) => Term::NamedNode(n.clone()),
        Subject::BlankNode(b) => Term::BlankNode(b.clone()),
    };
    write_term_text(out, &subject_term);
    out.append(" ");
    let predicate_term = Term::NamedNode(q.predicate.clone());
    write_term_text(out, &predicate_term);
    out.append(" ");
    write_term_text(out, &q.object);
    match &q.graph_name {
        GraphName::NamedNode(n) => {
            out.append(" ");
            let g = Term::NamedNode(n.clone());
            write_term_text(out, &g);
        },
        GraphName::BlankNode(b) => {
            out.append(" ");
            let g = Term::BlankNode(b.clone());
            write_term_text(out, &g);
        },
        GraphName::DefaultGraph => {},
    }
    out.append(" .\n");
    proof {
        assert(out@ =~= old(out)@ + serialize_quad(q@) + seq!['\n']);
    }
}

// Parsing. The accepted grammar is given by these spec functions; each
// executable parser is proved to decide exactly them.
pub open spec fn is_ws(c: char) -> bool {
    c == ' ' || c == '\t'
}

/// The first non-whitespace position at or after `i`.
pub open spec fn skip_ws_spec(s: Seq<char>, i: int) -> int
    decreases s.len() - i,
{
    if 0 <= i < s.len() && is_ws(s[i]) {
        skip_ws_spec(s, i + 1)
    } else {
        i
    }
}

/// The position of the first `c` at or after `i`, if any.
pub open spec fn find_char(s: Seq<char>, i: int, c: char) -> Option<int>
    decreases s.len() - i,
{
    if i < 0 || i >= s.len() {
        None
    } else if s[i] == c {
        Some(i)
    } else {
        find_char(s, i + 1, c)
    }
}

/// The end of a plain token: the first whitespace at or after `i`, or the
/// end of the line.
pub open spec fn token_end_spec(s: Seq<char>, i: int) -> int
    decreases s.len() - i,
{
    if 0 <= i < s.len() && !is_ws(s[i]) {
        token_end_spec(s, i + 1)
    } else {
        i
    }
}

/// The unescaped character an escape code denotes.
pub open spec fn esc_code(c: char) -> Option<char> {
    if c == '\\' {
        Some('\\')
    } else if c == '"' {
        Some('"')
    } else if c == 'n' {
        Some('\n')
    } else if c == 'r' {
        Some('\r')
    } else if c == 't' {
        Some('\t')
    } else {
        None
    }
}

/// Reads a quoted literal body starting inside the quotes at `i`: the
/// unescaped content and the position after the closing quote.
pub open spec fn scan_string_spec(s: Seq<char>, i: int) -> Option<(Seq<char>, int)>
    decreases s.len() - i,
{
    if i < 0 || i >= s.len() {
        None
    } else if s[i] == '"' {
        Some((Seq::empty(), i + 1))
    } else if s[i] == '\\' {
        if i + 1 < s.len() && esc_code(s[i + 1]) is Some {
            match scan_string_spec(s, i + 2) {
                Some((rest, j)) => Some((seq![esc_code(s[i + 1])->0] + rest, j)),
                None => None,
            }
        } else {
            None
        }
    } else {
        match scan_string_spec(s, i + 1) {
            Some((rest, j)) => Some((seq![s[i]] + rest, j)),
            None => None,
        }
    }
}

/// Reads one term starting at `i`: the term and the position after it.
pub open spec fn parse_term_spec(s: Seq<char>, i: int) -> Option<(TermV, int)> {
    if i < 0 || i >= s.len() {
        None
    } else if s[i] == '<' {
        match find_char(s, i + 1, '>') {
            Some(g) => Some((TermV::Named { iri: s.subrange(i + 1, g) }, g + 1)),
            None => None,
        }
    } else if s[i] == '_' {
        if i + 1 < s.len() && s[i + 1] == ':' {
            let e = token_end_spec(s, i + 2);
            Some((TermV::Blank { id: s.subrange(i + 2, e) }, e))
        } else {
            None
        }
    } else if s[i] == '"' {
        match scan_string_spec(s, i + 1) {
            Some((value, j)) => {
                if j < s.len() && s[j] == '@' {
                    let e = token_end_spec(s, j + 1);
                    if e > j + 1 {
                        Some((TermV::Lang { value, language: s.subrange(j + 1, e) }, e))
                    } else {
                        None
                    }
                } else if j + 1 < s.len() && s[j] == '^' && s[j + 1] == '^' && j + 2 < s.len() && s[j
                    + 2] == '<' {
                    match find_char(s, j + 3, '>') {
                        Some(g) => Some(
                            (TermV::Typed { value, datatype: s.subrange(j + 3, g) }, g + 1),
                        ),
                        None => None,
                    }
                } else {
                    Some((TermV::Simple { value }, j))
                }
            },
            None => None,
        }
    } else {
        None
    }
}

/// Whether a line holds only whitespace.
pub open spec fn line_blank(s: Seq<char>) -> bool {
    forall|j: int| 0 <= j < s.len() ==> is_ws(#[trigger] s[j])
}

/// Reads one statement line: terms for the subject, predicate and object, an
/// optional graph term, and the closing dot, with nothing but whitespace
/// after it.
#[verifier::opaque]
pub open spec fn parse_quad_line_spec(s: Seq<char>) -> Option<QuadV> {
    let i0 = skip_ws_spec(s, 0);
    match parse_term_spec(s, i0) {
        Some((subject, i1)) => {
            if !(subject is Named || subject is Blank) {
                None
            } else {
                match parse_term_spec(s, skip_ws_spec(s, i1)) {
                    Some((predicate, i2)) => {
                        if !(predicate is Named) {
                            None
                        } else {
                            match parse_term_spec(s, skip_ws_spec(s, i2)) {
                                Some((object, i3)) => {
                                    let i4 = skip_ws_spec(s, i3);
                                    if i4 < s.len() && s[i4] == '.' {
                                        if line_blank(s.subrange(i4 + 1, s.len() as int)) {
                                            Some(
                                                QuadV {
                                                    subject,
                                                    predicate,
                                                    object,
                                                    graph_name: TermV::DefaultGraph,
                                                },
                                            )
                                        } else {
                                            None
                                        }
                                    } else {
                                        match parse_term_spec(s, i4) {
                                            Some((graph_name, i5)) => {
                                                if !(graph_name is Named || graph_name is Blank) {
                                                    None
                                                } else {
                                                    let i6 = skip_ws_spec(s, i5);
                                                    if i6 < s.len() && s[i6] == '.' && line_blank(
                                                        s.subrange(i6 + 1, s.len() as int),
                                                    ) {
                                                        Some(
                                                            QuadV {
                                                                subject,
                                                                predicate,
                                                                object,
                                                                graph_name,
                                                            },
                                                        )
                                                    } else {
                                                        None
                                                    }
                                                }
                                            },
                                            None => None,
                                        }
                                    }
                                },
                                None => None,
                            }
                        }
                    },
                    None => None,
                }
            }
        },
        None => None,
    }
}

/// Reads the statements of the document tail `s[i..]`, one line at a time:
/// blank lines are skipped, and any other line must be a statement.
pub open spec fn parse_document_from(s: Seq<char>, i: int) -> Option<Seq<QuadV>>
    decreases s.len() - i,
{
    if i < 0 || i > s.len() {
        None
    } else {
        match find_char(s, i, '\n') {
            Some(p) => {
                if i <= p < s.len() {
                    let line = s.subrange(i, p);
                    match parse_document_from(s, p + 1) {
                        Some(rest) => {
                            if line_blank(line) {
                                Some(rest)
                            } else {
                                match parse_quad_line_spec(line) {
                                    Some(q) => Some(seq![q] + rest),
                                    None => None,
                                }
                            }
                        },
                        None => None,
                    }
                } else {
                    None
                }
            },
            None => {
                let line = s.subrange(i, s.len() as int);
                if line_blank(line) {
                    Some(Seq::empty())
                } else {
                    match parse_quad_line_spec(line) {
                        Some(q) => Some(seq![q]),
                        None => None,
                    }
                }
            },
        }
    }
}

/// Reads a whole document.
pub open spec fn parse_document_spec(s: Seq<char>) -> Option<Seq<QuadV>> {
    parse_document_from(s, 0)
}

// Executable parsers, each deciding exactly its spec function.
fn skip_ws(s: &str, i: usize, n: usize) -> (r: usize)
    requires
        n == s@.len(),
        i <= n,
    ensures
        i <= r <= n,
        r as int == skip_ws_spec(s@, i as int),
{
    let mut j = i;
    while j < n
        invariant
            n == s@.len(),
            i <= j <= n,
            skip_ws_spec(s@, i as int) == skip_ws_spec(s@, j as int),
        decreases n - j,
    {
        let c = s.get_char(j);
        if !(c == ' ' || c == '\t') {
            return j;
        }
        j = j + 1;
    }
    j
}

fn find_char_exec(s: &str, i: usize, n: usize, c: char) -> (r: Option<usize>)
    requires
        n == s@.len(),
        i <= n,
    ensures
        match r {
            Some(p) => find_char(s@, i as int, c) == Some(p as int) && i <= p < n,
            None => find_char(s@, i as int, c) is None,
        },
{
    let mut j = i;
    while j < n
        invariant
            n == s@.len(),
            i <= j <= n,
            find_char(s@, i as int, c) == find_char(s@, j as int, c),
        decreases n - j,
    {
        if s.get_char(j) == c {
            return Some(j);
        }
        j = j + 1;
    }
    None
}

fn token_end(s: &str, i: usize, n: usize) -> (r: usize)
    requires
        n == s@.len(),
        i <= n,
    ensures
        i <= r <= n,
        r as int == token_end_spec(s@, i as int),
{
    let mut j = i;
    while j < n
        invariant
            n == s@.len(),
            i <= j <= n,
            token_end_spec(s@, i as int) == token_end_spec(s@, j as int),
        decreases n - j,
    {
        let c = s.get_char(j);
        if c == ' ' || c == '\t' {
            return j;
        }
        j = j + 1;
    }
    j
}

/// The end of a run of plain literal characters: the first quote or
/// backslash at or after `i`, or the end.
fn plain_run_end(s: &str, i: usize, n: usize) -> (r: usize)
    requires
        n == s@.len(),
        i <= n,
    ensures
        i <= r <= n,
        forall|j: int| i <= j < r ==> s@[j] != '"' && s@[j] != '\\',
        r < n ==> (s@[r as int] == '"' || s@[r as int] == '\\'),
{
    let mut j = i;
    while j < n
        invariant
            n == s@.len(),
            i <= j <= n,
            forall|k: int| i <= k < j ==> s@[k] != '"' && s@[k] != '\\',
        decreases n - j,
    {
        let c = s.get_char(j);
        if c == '"' || c == '\\' {
            return j;
        }
        j = j + 1;
    }
    j
}

/// A run of plain characters contributes itself to the scanned content.
proof fn lemma_scan_plain_run(s: Seq<char>, i: int, k: int)
    requires
        0 <= i <= k <= s.len(),
        forall|j: int| i <= j < k ==> s[j] != '"' && s[j] != '\\',
    ensures
        scan_string_spec(s, i) == match scan_string_spec(s, k) {
            Some((rest, j)) => Some((s.subrange(i, k) + rest, j)),
            None => None::<(Seq<char>, int)>,
        },
    decreases k - i,
{
    if i == k {
        match scan_string_spec(s, k) {
            Some((rest, j)) => {
                assert(s.subrange(i, k) + rest =~= rest);
            },
            None => {},
        }
    } else {
        lemma_scan_plain_run(s, i + 1, k);
        match scan_string_spec(s, k) {
            Some((rest, j)) => {
                assert(seq![s[i]] + (s.subrange(i + 1, k) + rest) =~= s.subrange(i, k) + rest);
            },
            None => {},
        }
    }
}

/// Reads a quoted literal body; see `scan_string_spec`.
fn scan_string(s: &str, i: usize, n: usize) -> (r: Option<(String, usize)>)
    requires
        n == s@.len(),
        i <= n,
    ensures
        match r {
            Some(p) => scan_string_spec(s@, i as int) == Some((p.0@, p.1 as int)) && i < p.1 <= n,
            None => scan_string_spec(s@, i as int) is None,
        },
    decreases n - i,
{
    proof {
        reveal_strlit("\\");
        reveal_strlit("\"");
        reveal_strlit("\n");
        reveal_strlit("\r");
        reveal_strlit("\t");
    }
    if i >= n {
        return None;
    }
    let c = s.get_char(i);
    if c == '"' {
        let out = String::new();
        proof {
            assert(out@ =~= Seq::<char>::empty());
        }
        Some((out, i + 1))
    } else if c == '\\' {
        if i + 1 < n {
            let e = s.get_char(i + 1);
            let piece: &'static str = if e == '\\' {
                "\\"
            } else if e == '"' {
                "\""
            } else if e == 'n' {
                "\n"
            } else if e == 'r' {
                "\r"
            } else if e == 't' {
                "\t"
            } else {
                return None;
            };
            match scan_string(s, i + 2, n) {
                Some((rest, j)) => {
                    let mut out = piece.to_owned();
                    out.append(rest.as_str());
                    proof {
                        assert(out@ =~= seq![esc_code(s@[i + 1])->0] + rest@);
                    }
                    Some((out, j))
                },
                None => None,
            }
        } else {
            None
        }
    } else {
        let k = plain_run_end(s, i, n);
        proof {
            lemma_scan_plain_run(s@, i as int, k as int);
        }
        match scan_string(s, k, n) {
            Some((rest, j)) => {
                let mut out = s.substring_char(i, k).to_owned();
                out.append(rest.as_str());
                proof {
                    assert(out@ =~= s@.subrange(i as int, k as int) + rest@);
                }
                Some((out, j))
            },
            None => None,
        }
    }
}

/// Reads one term; see `parse_term_spec`. The returned value is in object
/// position shape; the line parser checks the slot kinds.
fn parse_term_exec(s: &str, i: usize, n: usize) -> (r: Option<(Term, usize)>)
    requires
        n == s@.len(),
        i <= n,
    ensures
        match r {
            Some(p) => parse_term_spec(s@, i as int) == Some((p.0@, p.1 as int)) && p.1 <= n,
            None => parse_term_spec(s@, i as int) is None,
        },
{
    if i >= n {
        return None;
    }
    let c = s.get_char(i);
    if c == '<' {
        match find_char_exec(s, i + 1, n, '>') {
            Some(g) => {
                let iri = s.substring_char(i + 1, g).to_owned();
                Some((Term::NamedNode(NamedNode { iri }), g + 1))
            },
            None => None,
        }
    } else if c == '_' {
        if i + 1 < n && s.get_char(i + 1) == ':' {
            let e = token_end(s, i + 2, n);
            let id = s.substring_char(i + 2, e).to_owned();
            Some((Term::BlankNode(BlankNode { id }), e))
        } else {
            None
        }
    } else if c == '"' {
        match scan_string(s, i + 1, n) {
            Some((value, j)) => {
                if j < n && s.get_char(j) == '@' {
                    let e = token_end(s, j + 1, n);
                    if e > j + 1 {
                        let language = s.substring_char(j + 1, e).to_owned();
                        Some((Term::Literal(Literal::LanguageTagged { value, language }), e))
                    } else {
                        None
                    }
                } else if j < n && s.get_char(j) == '^' && j + 1 < n && s.get_char(j + 1) == '^'
                    && j + 2 < n && s.get_char(j + 2) == '<' {
                    match find_char_exec(s, j + 3, n, '>') {
                        Some(g) => {
                            let iri = s.substring_char(j + 3, g).to_owned();
                            Some(
                                (
                                    Term::Literal(
                                        Literal::Typed { value, datatype: NamedNode { iri } },
                                    ),
                                    g + 1,
                                ),
                            )
                        },
                        None => None,
                    }
                } else {
                    Some((Term::Literal(Literal::Simple { value }), j))
                }
            },
            None => None,
        }
    } else {
        None
    }
}

/// Whether the line tail `s[i..]` is all whitespace.
fn rest_blank(s: &str, i: usize, n: usize) -> (r: bool)
    requires
        n == s@.len(),
        i <= n,
    ensures
        r == line_blank(s@.subrange(i as int, n as int)),
{
    let mut j = i;
    while j < n
        invariant
            n == s@.len(),
            i <= j <= n,
            forall|k: int| i <= k < j ==> is_ws(s@[k]),
        decreases n - j,
    {
        let c = s.get_char(j);
        if !(c == ' ' || c == '\t') {
            assert(!line_blank(s@.subrange(i as int, n as int))) by {
                assert(s@.subrange(i as int, n as int)[j - i] == s@[j as int]);
            }
            return false;
        }
        j = j + 1;
    }
    assert forall|k: int|
        0 <= k < s@.subrange(i as int, n as int).len() implies is_ws(
        #[trigger] s@.subrange(i as int, n as int)[k],
    ) by {
        assert(s@.subrange(i as int, n as int)[k] == s@[i + k]);
    }
    true
}

/// Reads one statement line; see `parse_quad_line_spec`.
fn parse_quad_line(s: &str) -> (r: Option<Quad>)
    ensures
        match r {
            Some(q) => parse_quad_line_spec(s@) == Some(q@),
            None => parse_quad_line_spec(s@) is None,
        },
{
    proof {
        reveal(parse_quad_line_spec);
    }
    let n = s.unicode_len();
    let i0 = skip_ws(s, 0, n);
    let (subject_term, i1) = match parse_term_exec(s, i0, n) {
        Some(p) => p,
        None => {
            return None;
        },
    };
    let subject = match subject_term {
        Term::NamedNode(nn) => Subject::NamedNode(nn),
        Term::BlankNode(b) => Subject::BlankNode(b),
        Term::Literal(_) => {
            return None;
        },
    };
    let (predicate_term, i2) = match parse_term_exec(s, skip_ws(s, i1, n), n) {
        Some(p) => p,
        None => {
            return None;
        },
    };
    let predicate = match predicate_term {
        Term::NamedNode(nn) => nn,
        _ => {
            return None;
        },
    };
    let (object, i3) = match parse_term_exec(s, skip_ws(s, i2, n), n) {
        Some(p) => p,
        None => {
            return None;
        },
    };
    let i4 = skip_ws(s, i3, n);
    if i4 < n && s.get_char(i4) == '.' {
        if rest_blank(s, i4 + 1, n) {
            return Some(
                Quad { subject, predicate, object, graph_name: GraphName::DefaultGraph },
            );
        } else {
            return None;
        }
    }
    let (graph_term, i5) = match parse_term_exec(s, i4, n) {
        Some(p) => p,
        None => {
            return None;
        },
    };
    let graph_name = match graph_term {
        Term::NamedNode(nn) => GraphName::NamedNode(nn),
        Term::BlankNode(b) => GraphName::BlankNode(b),
        Term::Literal(_) => {
            return None;
        },
    };
    let i6 = skip_ws(s, i5, n);
    if i6 < n && s.get_char(i6) == '.' && rest_blank(s, i6 + 1, n) {
        Some(Quad { subject, predicate, object, graph_name })
    } else {
        None
    }
}

/// Reads the statements of the document tail `s[i..]`; see
/// `parse_document_from`.
fn parse_document_exec(s: &str, i: usize, n: usize) -> (r: Option<Vec<Quad>>)
    requires
        n == s@.len(),
        i <= n,
    ensures
        match r {
            Some(qs) => parse_document_from(s@, i as int) matches Some(spec_qs) && qs@.len()
                == spec_qs.len() && forall|j: int|
                0 <= j < qs@.len() ==> (#[trigger] qs@[j])@ == spec_qs[j],
            None => parse_document_from(s@, i as int) is None,
        },
    decreases n - i,
{
    match find_char_exec(s, i, n, '\n') {
        Some(p) => {
            let line = s.substring_char(i, p);
            let rest = match parse_document_exec(s, p + 1, n) {
                Some(rest) => rest,
                None => {
                    return None;
                },
            };
            let line_n = line.unicode_len();
            if rest_blank(line, 0, line_n) {
                proof {
                    assert(line@.subrange(0, line@.len() as int) =~= line@);
                }
                Some(rest)
            } else {
                proof {
                    assert(line@.subrange(0, line@.len() as int) =~= line@);
                }
                match parse_quad_line(line) {
                    Some(q) => {
                        let mut out = rest;
                        out.insert(0, q);
                        proof {
                            let spec_qs = parse_document_from(s@, i as int)->0;
                            assert(spec_qs =~= seq![q@] + parse_document_from(s@, p + 1)->0);
                        }
                        Some(out)
                    },
                    None => None,
                }
            }
        },
        None => {
            let line = s.substring_char(i, n);
            let line_n = line.unicode_len();
            if rest_blank(line, 0, line_n) {
                proof {
                    assert(line@.subrange(0, line@.len() as int) =~= line@);
                }
                Some(Vec::new())
            } else {
                proof {
                    assert(line@.subrange(0, line@.len() as int) =~= line@);
                }
                match parse_quad_line(line) {
                    Some(q) => {
                        let mut out: Vec<Quad> = Vec::new();
                        out.push(q);
                        Some(out)
                    },
                    None => None,
                }
            }
        },
    }
}

// The serialization round trip: reading back what was written yields the
// same statements. This holds for every quad whose fixed tokens are clean:
// IRIs free of `>` and line breaks, blank node identifiers and language tags
// free of whitespace and line breaks, the language tag non-empty. Literal
// lexical forms are unrestricted: escaping protects them.
pub open spec fn plain_iri(v: Seq<char>) -> bool {
    forall|j: int| 0 <= j < v.len() ==> #[trigger] v[j] != '>' && v[j] != '\n'
}

pub open spec fn plain_token(v: Seq<char>) -> bool {
    forall|j: int| 0 <= j < v.len() ==> !is_ws(#[trigger] v[j]) && v[j] != '\n'
}

pub open spec fn serializable_term(t: TermV) -> bool {
    match t {
        TermV::Named { iri } => plain_iri(iri),
        TermV::Blank { id } => plain_token(id),
        TermV::Simple { .. } => true,
        TermV::Lang { language, .. } => plain_token(language) && language.len() > 0,
        TermV::Typed { datatype, .. } => plain_iri(datatype),
        TermV::DefaultGraph => true,
    }
}

pub open spec fn serializable_quad(q: QuadV) -> bool {
    &&& crate::term::wf_quad_view(q)
    &&& serializable_term(q.subject)
    &&& serializable_term(q.predicate)
    &&& serializable_term(q.object)
    &&& serializable_term(q.graph_name)
}

/// Escaping unfolds from the front as well.
proof fn lemma_escape_front(v: Seq<char>)
    requires
        v.len() > 0,
    ensures
        escape_str(v) == escape_char(v[0]) + escape_str(v.skip(1)),
    decreases v.len(),
{
    if v.len() == 1 {
        assert(v.drop_last() =~= Seq::<char>::empty());
        assert(v.skip(1) =~= Seq::<char>::empty());
        assert(escape_str(v) =~= escape_char(v[0]) + escape_str(v.skip(1)));
    } else {
        lemma_escape_front(v.drop_last());
        assert(v.drop_last()[0] == v[0]);
        assert(v.drop_last().skip(1) =~= v.skip(1).drop_last());
        assert(v.skip(1).last() == v.last());
        assert(escape_str(v) == escape_str(v.drop_last()) + escape_char(v.last()));
        assert(escape_str(v.skip(1)) == escape_str(v.skip(1).drop_last()) + escape_char(
            v.skip(1).last(),
        ));
        assert(escape_str(v) =~= escape_char(v[0]) + escape_str(v.skip(1)));
    }
}

/// Scanning the escaped form of `v`, up to its closing quote, yields `v`.
proof fn lemma_scan_escaped(v: Seq<char>, s: Seq<char>, i: int)
    requires
        0 <= i,
        i + escape_str(v).len() + 1 <= s.len(),
        s.subrange(i, i + escape_str(v).len()) == escape_str(v),
        s[i + escape_str(v).len()] == '"',
    ensures
        scan_string_spec(s, i) == Some((v, i + escape_str(v).len() + 1)),
    decreases v.len(),
{
    if v.len() == 0 {
        assert(escape_str(v).len() == 0);
        assert(s[i] == '"');
    } else {
        let c = v[0];
        lemma_escape_front(v);
        let esc = escape_str(v);
        let esc_rest = escape_str(v.skip(1));
        assert(esc == escape_char(c) + esc_rest);
        if c == '\\' || c == '"' || c == '\n' || c == '\r' {
            assert(escape_char(c).len() == 2);
            assert(s[i] == esc[0] && esc[0] == '\\');
            assert(s[i + 1] == esc[1]);
            assert(esc_code(esc[1]) == Some(c));
            assert(s.subrange(i + 2, i + 2 + esc_rest.len()) =~= esc_rest) by {
                assert(forall|j: int|
                    0 <= j < esc_rest.len() ==> s.subrange(i, i + esc.len())[j + 2] == esc[j + 2]
                        && esc[j + 2] == esc_rest[j]);
            }
            lemma_scan_escaped(v.skip(1), s, i + 2);
            assert(seq![c] + v.skip(1) =~= v);
        } else {
            assert(escape_char(c) =~= seq![c]);
            assert(s[i] == esc[0] && esc[0] == c);
            assert(c != '"' && c != '\\');
            assert(s.subrange(i + 1, i + 1 + esc_rest.len()) =~= esc_rest) by {
                assert(forall|j: int|
                    0 <= j < esc_rest.len() ==> s.subrange(i, i + esc.len())[j + 1] == esc[j + 1]
                        && esc[j + 1] == esc_rest[j]);
            }
            lemma_scan_escaped(v.skip(1), s, i + 1);
            assert(seq![c] + v.skip(1) =~= v);
        }
    }
}

/// The first occurrence of `c` after a region free of it is right behind it.
proof fn lemma_find_char_at(s: Seq<char>, i: int, k: int, c: char)
    requires
        0 <= i <= k < s.len(),
        forall|j: int| i <= j < k ==> #[trigger] s[j] != c,
        s[k] == c,
    ensures
        find_char(s, i, c) == Some(k),
    decreases k - i,
{
    if i < k {
        lemma_find_char_at(s, i + 1, k, c);
    }
}

/// A region free of whitespace up to a stop yields that stop as token end.
proof fn lemma_token_end_at(s: Seq<char>, i: int, k: int)
    requires
        0 <= i <= k <= s.len(),
        forall|j: int| i <= j < k ==> !is_ws(#[trigger] s[j]),
        k < s.len() ==> is_ws(s[k]),
    ensures
        token_end_spec(s, i) == k,
    decreases k - i,
{
    if i < k {
        lemma_token_end_at(s, i + 1, k);
    }
}

/// Reading the written form of a term, followed by a space, yields the term.
proof fn lemma_parse_term_at(t: TermV, s: Seq<char>, i: int)
    requires
        serializable_term(t),
        !(t is DefaultGraph),
        0 <= i,
        i + serialize_term(t).len() < s.len(),
        s.subrange(i, i + serialize_term(t).len()) == serialize_term(t),
        s[i + serialize_term(t).len()] == ' ',
    ensures
        parse_term_spec(s, i) == Some((t, i + serialize_term(t).len())),
{
    let ser = serialize_term(t);
    let e = i + ser.len();
    let sub = s.subrange(i, e);
    assert forall|j: int| 0 <= j < ser.len() implies s[i + j] == #[trigger] ser[j] by {
        assert(sub[j] == s[i + j]);
        assert(sub[j] == ser[j]);
    }
    match t {
        TermV::Named { iri } => {
            assert(ser[0] == '<');
            assert(s[i] == '<');
            assert(ser[ser.len() - 1] == '>');
            assert(s[e - 1] == '>');
            assert forall|j: int| i + 1 <= j < e - 1 implies #[trigger] s[j] != '>' by {
                assert(ser[j - i] == iri[j - i - 1]);
                assert(s[j] == iri[j - i - 1]);
            }
            lemma_find_char_at(s, i + 1, e - 1, '>');
            assert(s.subrange(i + 1, e - 1) =~= iri) by {
                assert forall|j: int|
                    0 <= j < iri.len() implies s.subrange(i + 1, e - 1)[j] == iri[j] by {
                    assert(s.subrange(i + 1, e - 1)[j] == s[i + 1 + j]);
                    assert(ser[j + 1] == iri[j]);
                }
            }
        },
        TermV::Blank { id } => {
            assert(ser[0] == '_' && ser[1] == ':');
            assert(s[i] == '_' && s[i + 1] == ':');
            assert forall|j: int| i + 2 <= j < e implies !is_ws(#[trigger] s[j]) by {
                assert(ser[j - i] == id[j - i - 2]);
                assert(s[j] == id[j - i - 2]);
            }
            lemma_token_end_at(s, i + 2, e);
            assert(s.subrange(i + 2, e) =~= id) by {
                assert forall|j: int|
                    0 <= j < id.len() implies s.subrange(i + 2, e)[j] == id[j] by {
                    assert(s.subrange(i + 2, e)[j] == s[i + 2 + j]);
                    assert(ser[j + 2] == id[j]);
                }
            }
        },
        TermV::Simple { value } => {
            let esc = escape_str(value);
            assert(ser[0] == '"');
            assert(s[i] == '"');
            assert(s.subrange(i + 1, i + 1 + esc.len()) =~= esc) by {
                assert forall|j: int|
                    0 <= j < esc.len() implies s.subrange(i + 1, i + 1 + esc.len())[j]
                    == esc[j] by {
                    assert(s.subrange(i + 1, i + 1 + esc.len())[j] == s[i + 1 + j]);
                    assert(ser[j + 1] == esc[j]);
                }
            }
            assert(ser[ser.len() - 1] == '"');
            assert(s[i + 1 + esc.len()] == '"');
            lemma_scan_escaped(value, s, i + 1);
            assert(s[e] == ' ');
        },
        TermV::Lang { value, language } => {
            let esc = escape_str(value);
            assert(ser[0] == '"');
            assert(s[i] == '"');
            assert(s.subrange(i + 1, i + 1 + esc.len()) =~= esc) by {
                assert forall|j: int|
                    0 <= j < esc.len() implies s.subrange(i + 1, i + 1 + esc.len())[j]
                    == esc[j] by {
                    assert(s.subrange(i + 1, i + 1 + esc.len())[j] == s[i + 1 + j]);
                    assert(ser[j + 1] == esc[j]);
                }
            }
            assert(ser[esc.len() as int + 1] == '"');
            assert(s[i + 1 + esc.len()] == '"');
            lemma_scan_escaped(value, s, i + 1);
            let j0 = i + 2 + esc.len();
            assert(ser[esc.len() as int + 2] == '@');
            assert(s[j0] == '@');
            assert forall|w: int| j0 + 1 <= w < e implies !is_ws(#[trigger] s[w]) by {
                assert(ser[w - i] == language[w - j0 - 1]);
                assert(s[w] == language[w - j0 - 1]);
            }
            lemma_token_end_at(s, j0 + 1, e);
            assert(s.subrange(j0 + 1, e) =~= language) by {
                assert forall|w: int|
                    0 <= w < language.len() implies s.subrange(j0 + 1, e)[w] == language[w] by {
                    assert(s.subrange(j0 + 1, e)[w] == s[j0 + 1 + w]);
                    assert(ser[j0 + 1 + w - i] == language[w]);
                }
            }
            assert(e > j0 + 1);
        },
        TermV::Typed { value, datatype } => {
            let esc = escape_str(value);
            assert(ser[0] == '"');
            assert(s[i] == '"');
            assert(s.subrange(i + 1, i + 1 + esc.len()) =~= esc) by {
                assert forall|j: int|
                    0 <= j < esc.len() implies s.subrange(i + 1, i + 1 + esc.len())[j]
                    == esc[j] by {
                    assert(s.subrange(i + 1, i + 1 + esc.len())[j] == s[i + 1 + j]);
                    assert(ser[j + 1] == esc[j]);
                }
            }
            assert(ser[esc.len() as int + 1] == '"');
            assert(s[i + 1 + esc.len()] == '"');
            lemma_scan_escaped(value, s, i + 1);
            let j0 = i + 2 + esc.len();
            assert(ser[esc.len() as int + 2] == '^');
            assert(ser[esc.len() as int + 3] == '^');
            assert(ser[esc.len() as int + 4] == '<');
            assert(s[j0] == '^' && s[j0 + 1] == '^' && s[j0 + 2] == '<');
            assert(ser[ser.len() - 1] == '>');
            assert(s[e - 1] == '>');
            assert forall|w: int| j0 + 3 <= w < e - 1 implies #[trigger] s[w] != '>' by {
                assert(ser[w - i] == datatype[w - j0 - 3]);
                assert(s[w] == datatype[w - j0 - 3]);
            }
            lemma_find_char_at(s, j0 + 3, e - 1, '>');
            assert(s.subrange(j0 + 3, e - 1) =~= datatype) by {
                assert forall|w: int|
                    0 <= w < datatype.len() implies s.subrange(j0 + 3, e - 1)[w]
                    == datatype[w] by {
                    assert(s.subrange(j0 + 3, e - 1)[w] == s[j0 + 3 + w]);
                    assert(ser[j0 + 3 + w - i] == datatype[w]);
                }
            }
        },
        TermV::DefaultGraph => {},
    }
}

/// Skipping whitespace stops immediately at a non-blank.
proof fn lemma_skip_ws_here(s: Seq<char>, i: int)
    requires
        0 <= i,
        i < s.len() ==> !is_ws(s[i]),
    ensures
        skip_ws_spec(s, i) == i,
{
}

/// Skipping whitespace over one space lands right behind it.
proof fn lemma_skip_one_space(s: Seq<char>, i: int)
    requires
        0 <= i < s.len(),
        s[i] == ' ',
        i + 1 < s.len() ==> !is_ws(s[i + 1]),
    ensures
        skip_ws_spec(s, i) == i + 1,
{
    lemma_skip_ws_here(s, i + 1);
}

/// The first character of a written term is never whitespace and never a
/// dot.
proof fn lemma_serialized_term_head(t: TermV)
    requires
        !(t is DefaultGraph),
    ensures
        serialize_term(t).len() > 0,
        !is_ws(serialize_term(t)[0]),
        serialize_term(t)[0] != '.',
        serialize_term(t)[0] != '\n',
{
}

/// Reading back the written form of one statement yields the statement.
pub proof fn lemma_quad_line_round_trip(q: QuadV)
    requires
        serializable_quad(q),
    ensures
        parse_quad_line_spec(serialize_quad(q)) == Some(q),
{
    reveal(parse_quad_line_spec);
    let s = serialize_quad(q);
    let sa = serialize_term(q.subject);
    let sb = serialize_term(q.predicate);
    let sc = serialize_term(q.object);
    let sg = serialize_term(q.graph_name);
    lemma_serialized_term_head(q.subject);
    lemma_serialized_term_head(q.predicate);
    lemma_serialized_term_head(q.object);
    let i1 = sa.len() as int;
    let i2 = i1 + 1 + sb.len();
    let i3 = i2 + 1 + sc.len();
    if q.graph_name is DefaultGraph {
        assert(s =~= sa + seq![' '] + sb + seq![' '] + sc + seq![' ', '.']);
        assert(s.len() == i3 + 2);
        assert(s.subrange(0, i1) =~= sa);
        assert(s[i1] == ' ');
        assert(s.subrange(i1 + 1, i2) =~= sb);
        assert(s[i2] == ' ');
        assert(s.subrange(i2 + 1, i3) =~= sc);
        assert(s[i3] == ' ');
        assert(s[i3 + 1] == '.');
        lemma_skip_ws_here(s, 0);
        lemma_parse_term_at(q.subject, s, 0);
        lemma_skip_one_space(s, i1);
        lemma_parse_term_at(q.predicate, s, i1 + 1);
        lemma_skip_one_space(s, i2);
        lemma_parse_term_at(q.object, s, i2 + 1);
        lemma_skip_one_space(s, i3);
        assert(line_blank(s.subrange(i3 + 2, s.len() as int))) by {
            assert(s.subrange(i3 + 2, s.len() as int) =~= Seq::<char>::empty());
        }
    } else {
        lemma_serialized_term_head(q.graph_name);
        let i4 = i3 + 1 + sg.len();
        assert(s =~= sa + seq![' '] + sb + seq![' '] + sc + (seq![' '] + sg) + seq![' ', '.']);
        assert(s.len() == i4 + 2);
        assert(s.subrange(0, i1) =~= sa);
        assert(s[i1] == ' ');
        assert(s.subrange(i1 + 1, i2) =~= sb);
        assert(s[i2] == ' ');
        assert(s.subrange(i2 + 1, i3) =~= sc);
        assert(s[i3] == ' ');
        assert(s.subrange(i3 + 1, i4) =~= sg);
        assert(s[i4] == ' ');
        assert(s[i4 + 1] == '.');
        lemma_skip_ws_here(s, 0);
        lemma_parse_term_at(q.subject, s, 0);
        lemma_skip_one_space(s, i1);
        lemma_parse_term_at(q.predicate, s, i1 + 1);
        lemma_skip_one_space(s, i2);
        lemma_parse_term_at(q.object, s, i2 + 1);
        lemma_skip_one_space(s, i3);
        assert(s[i3 + 1] != '.');
        lemma_parse_term_at(q.graph_name, s, i3 + 1);
        lemma_skip_one_space(s, i4);
        assert(line_blank(s.subrange(i4 + 2, s.len() as int))) by {
            assert(s.subrange(i4 + 2, s.len() as int) =~= Seq::<char>::empty());
        }
    }
}

/// The escaped form of any lexical form holds no line break.
proof fn lemma_escape_no_newline(v: Seq<char>)
    ensures
        forall|j: int| 0 <= j < escape_str(v).len() ==> #[trigger] escape_str(v)[j] != '\n',
    decreases v.len(),
{
    if v.len() > 0 {
        lemma_escape_no_newline(v.drop_last());
        let front = escape_str(v.drop_last());
        let tail = escape_char(v.last());
        assert forall|j: int|
            0 <= j < escape_str(v).len() implies #[trigger] escape_str(v)[j] != '\n' by {
            if j < front.len() {
                assert(escape_str(v)[j] == front[j]);
            } else {
                assert(escape_str(v)[j] == tail[j - front.len()]);
            }
        }
    }
}

/// A written statement holds no line break and does not read as blank.
proof fn lemma_serialized_quad_line_shape(q: QuadV)
    requires
        serializable_quad(q),
    ensures
        forall|j: int|
            0 <= j < serialize_quad(q).len() ==> #[trigger] serialize_quad(q)[j] != '\n',
        !line_blank(serialize_quad(q)),
    decreases 0int,
{
    let s = serialize_quad(q);
    lemma_serialized_term_head(q.subject);
    assert(s[0] == serialize_term(q.subject)[0]);
    assert(!is_ws(s[0]));
    lemma_serialized_term_no_newline(q.subject);
    lemma_serialized_term_no_newline(q.predicate);
    lemma_serialized_term_no_newline(q.object);
    lemma_serialized_term_no_newline(q.graph_name);
    assert forall|j: int| 0 <= j < s.len() implies #[trigger] s[j] != '\n' by {
        let sa = serialize_term(q.subject);
        let sb = serialize_term(q.predicate);
        let sc = serialize_term(q.object);
        let sg = serialize_term(q.graph_name);
        assert(s == sa + seq![' '] + sb + seq![' '] + sc + (if q.graph_name is DefaultGraph {
            Seq::<char>::empty()
        } else {
            seq![' '] + sg
        }) + seq![' ', '.']);
    }
}

/// A written term holds no line break.
proof fn lemma_serialized_term_no_newline(t: TermV)
    requires
        serializable_term(t),
    ensures
        forall|j: int|
            0 <= j < serialize_term(t).len() ==> #[trigger] serialize_term(t)[j] != '\n',
{
    match t {
        TermV::Simple { value } => {
            lemma_escape_no_newline(value);
        },
        TermV::Lang { value, .. } => {
            lemma_escape_no_newline(value);
        },
        TermV::Typed { value, .. } => {
            lemma_escape_no_newline(value);
        },
        _ => {},
    }
}

/// A written statement list unfolds from the front as well.
proof fn lemma_serialize_dataset_front(qs: Seq<QuadV>)
    requires
        qs.len() > 0,
    ensures
        serialize_dataset(qs) == serialize_quad(qs[0]) + seq!['\n'] + serialize_dataset(
            qs.skip(1),
        ),
    decreases qs.len(),
{
    if qs.len() == 1 {
        assert(qs.drop_last() =~= Seq::<QuadV>::empty());
        assert(qs.skip(1) =~= Seq::<QuadV>::empty());
        assert(serialize_dataset(qs) =~= serialize_quad(qs[0]) + seq!['\n'] + serialize_dataset(
            qs.skip(1),
        ));
    } else {
        lemma_serialize_dataset_front(qs.drop_last());
        assert(qs.drop_last()[0] == qs[0]);
        assert(qs.drop_last().skip(1) =~= qs.skip(1).drop_last());
        assert(qs.skip(1).last() == qs.last());
        assert(serialize_dataset(qs.skip(1)) == serialize_dataset(qs.skip(1).drop_last())
            + serialize_quad(qs.skip(1).last()) + seq!['\n']);
        assert(serialize_dataset(qs) =~= serialize_quad(qs[0]) + seq!['\n'] + serialize_dataset(
            qs.skip(1),
        ));
    }
}

/// Reading a written statement list from a position yields the statements.
#[verifier::rlimit(100)]
#[verifier::spinoff_prover]
proof fn lemma_parse_document_round_from(qs: Seq<QuadV>, s: Seq<char>, i: int)
    requires
        forall|j: int| 0 <= j < qs.len() ==> serializable_quad(#[trigger] qs[j]),
        0 <= i <= s.len(),
        s.subrange(i, s.len() as int) == serialize_dataset(qs),
    ensures
        parse_document_from(s, i) == Some(qs),
    decreases qs.len(),
{
    let d = serialize_dataset(qs);
    let sub = s.subrange(i, s.len() as int);
    if qs.len() == 0 {
        assert(s.len() - i == 0);
        assert(find_char(s, i, '\n') is None);
        assert(line_blank(s.subrange(i, s.len() as int)));
    } else {
        lemma_serialize_dataset_front(qs);
        let line = serialize_quad(qs[0]);
        let rest = serialize_dataset(qs.skip(1));
        let p = i + line.len();
        lemma_serialized_quad_line_shape(qs[0]);
        assert forall|j: int| i <= j < p implies #[trigger] s[j] != '\n' by {
            assert(s[j] == sub[j - i]);
            assert(sub[j - i] == d[j - i]);
            assert(d[j - i] == line[j - i]);
        }
        assert(s[p] == '\n') by {
            assert(s[p] == sub[line.len() as int]);
            assert(sub[line.len() as int] == d[line.len() as int]);
            assert(d[line.len() as int] == '\n');
        }
        lemma_find_char_at(s, i, p, '\n');
        assert(s.subrange(i, p) =~= line) by {
            assert forall|w: int| 0 <= w < line.len() implies s.subrange(i, p)[w] == line[w] by {
                assert(s.subrange(i, p)[w] == s[i + w]);
                assert(s[i + w] == sub[w]);
                assert(sub[w] == d[w]);
                assert(d[w] == line[w]);
            }
        }
        assert(!line_blank(line)) by {
            assert(!is_ws(line[0]));
        }
        lemma_quad_line_round_trip(qs[0]);
        assert(s.subrange(p + 1, s.len() as int) =~= rest) by {
            assert forall|w: int|
                0 <= w < rest.len() implies s.subrange(p + 1, s.len() as int)[w] == rest[w] by {
                assert(s.subrange(p + 1, s.len() as int)[w] == s[p + 1 + w]);
                assert(s[p + 1 + w] == sub[line.len() + 1 + w]);
                assert(sub[line.len() + 1 + w] == d[line.len() + 1 + w]);
                assert(d[line.len() + 1 + w] == rest[w]);
            }
        }
        lemma_parse_document_round_from(qs.skip(1), s, p + 1);
        assert(seq![qs[0]] + qs.skip(1) =~= qs);
    }
}

/// The serialization round trip: reading back a written statement list
/// yields the same statements, for statements whose fixed tokens are clean.
pub proof fn lemma_serialization_round_trip(qs: Seq<QuadV>)
    requires
        forall|j: int| 0 <= j < qs.len() ==> serializable_quad(#[trigger] qs[j]),
    ensures
        parse_document_spec(serialize_dataset(qs)) == Some(qs),
{
    let s = serialize_dataset(qs);
    assert(s.subrange(0, s.len() as int) =~= s);
    lemma_parse_document_round_from(qs, s, 0);
}

/// Reads a whole N-Quads document.
pub fn parse_nquads(s: &str) -> (r: Option<Vec<Quad>>)
    ensures
        match r {
            Some(qs) => parse_document_spec(s@) matches Some(spec_qs) && qs@.len() == spec_qs.len()
                && forall|j: int| 0 <= j < qs@.len() ==> (#[trigger] qs@[j])@ == spec_qs[j],
            None => parse_document_spec(s@) is None,
        },
{
    let n = s.unicode_len();
    parse_document_exec(s, 0, n)
}

/// Writes a whole N-Quads document.
pub fn write_nquads(quads: &Vec<Quad>) -> (r: String)
    ensures
        r@ == serialize_dataset(quads@.map_values(|q: Quad| q@)),
{
    let n = quads.len();
    let mut out = String::new();
    let mut i: usize = 0;
    proof {
        assert(quads@.map_values(|q: Quad| q@).take(0) =~= Seq::<QuadV>::empty());
        assert(out@ =~= serialize_dataset(quads@.map_values(|q: Quad| q@).take(0)));
    }
    while i < n
        invariant
            n == quads@.len(),
            0 <= i <= n,
            out@ == serialize_dataset(quads@.map_values(|q: Quad| q@).take(i as int)),
        decreases n - i,
    {
        write_quad_line(&mut out, &quads[i]);
        proof {
            let m = quads@.map_values(|q: Quad| q@);
            assert(m.take(i + 1).drop_last() =~= m.take(i as int));
            assert(m.take(i + 1).last() == m[i as int]);
            assert(m[i as int] == quads@[i as int]@);
            assert(out@ =~= serialize_dataset(m.take(i + 1)));
        }
        i = i + 1;
    }
    proof {
        assert(quads@.map_values(|q: Quad| q@).take(n as int) =~= quads@.map_values(
            |q: Quad| q@,
        ));
    }
    out
}

} // verus!
