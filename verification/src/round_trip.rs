//! The type definitions that the emitter writes for a function signature read
//! back, through the lexer and the grammar, as the same signature.
use vstd::prelude::*;
use crate::lexer::{Dialect, Scan, Token, Tok, is_ident_start, is_ident_char, is_blank, ident_run_end, skip_trivia_from, skip_trivia, scan, next_token, keyword, spec_tokens_from, lemma_next_token};
use crate::lexer::{spec_tokens, lexes_to, tok_matches, token_denotes};
use crate::ast::{SType, SParam, SField, SFunction, SIdent, SModule, SModuleItem, SDecl};
use crate::dcp::{type_text, params_text, return_text, function_text, sep_after, decl_text, item_text, items_text, module_text};
use crate::Span;
use crate::grammar::{is_at, skip_if, g_ident, base_type, g_type, g_type_elems, g_type_fields, g_type_field, g_param, g_param_list, g_expect, g_params, g_return_type, g_function, g_decl, g_module_item, g_module_items, g_module, starts_decl, SParseError};

verus! {

// ------------------------------------------------------------------
// Text as a list of lexical pieces
// ------------------------------------------------------------------

/// A piece of text that forms one token: a word, or one punctuation mark.
pub enum Piece {
    Word(Seq<char>),
    Mark(char),
}

/// A piece and the blanks written after it.
pub struct Unit {
    pub piece: Piece,
    pub gap: Seq<char>,
}

/// The characters of a piece.
pub open spec fn piece_text(p: Piece) -> Seq<char> {
    match p {
        Piece::Word(w) => w,
        Piece::Mark(c) => seq![c],
    }
}

/// The text of the units, pieces and gaps in order.
pub open spec fn units_text(us: Seq<Unit>) -> Seq<char>
    decreases us.len(),
{
    if us.len() == 0 {
        Seq::empty()
    } else {
        piece_text(us[0].piece) + us[0].gap + units_text(us.drop_first())
    }
}

/// A non-empty run of identifier characters that starts like an identifier.
pub open spec fn is_word(w: Seq<char>) -> bool {
    &&& w.len() > 0
    &&& is_ident_start(w[0])
    &&& forall|k: int| 0 <= k < w.len() ==> is_ident_char(#[trigger] w[k])
}

/// The one-character punctuation tokens the type definitions use.
pub open spec fn mark_token(c: char) -> Option<Token> {
    if c == '(' { Some(Token::LParen) }
    else if c == ')' { Some(Token::RParen) }
    else if c == ':' { Some(Token::Colon) }
    else if c == ';' { Some(Token::Semicolon) }
    else if c == ',' { Some(Token::Comma) }
    else if c == '[' { Some(Token::LBracket) }
    else if c == ']' { Some(Token::RBracket) }
    else if c == '{' { Some(Token::LBrace) }
    else if c == '}' { Some(Token::RBrace) }
    else { None }
}

pub open spec fn piece_ok(p: Piece) -> bool {
    match p {
        Piece::Word(w) => is_word(w),
        Piece::Mark(c) => mark_token(c) is Some,
    }
}

pub open spec fn gap_ok(g: Seq<char>) -> bool {
    forall|k: int| 0 <= k < g.len() ==> is_blank(#[trigger] g[k])
}

/// Every piece is well formed, and a word that no blank follows is followed by a mark.
pub open spec fn units_ok(us: Seq<Unit>) -> bool {
    &&& forall|j: int| 0 <= j < us.len() ==> piece_ok(#[trigger] us[j].piece) && gap_ok(us[j].gap)
    &&& forall|j: int| 0 <= j < us.len() - 1 && (#[trigger] us[j].piece) is Word && us[j].gap.len() == 0
            ==> us[j + 1].piece is Mark
}

/// The class the scanner gives a piece in the `cpc` dialect.
pub open spec fn piece_scan(p: Piece) -> Scan {
    match p {
        Piece::Word(w) => match keyword(w, Dialect::Cpc) {
            Some(t) => Scan::Fixed(t),
            None => Scan::Ident,
        },
        Piece::Mark(c) => match mark_token(c) {
            Some(t) => Scan::Fixed(t),
            None => Scan::Error,
        },
    }
}

// ------------------------------------------------------------------
// Lexing such text
// ------------------------------------------------------------------

proof fn lemma_run_end(s: Seq<char>, k: int, e: int)
    requires
        0 <= k <= e <= s.len(),
        forall|x: int| k <= x < e ==> is_ident_char(#[trigger] s[x]),
        e == s.len() || !is_ident_char(s[e]),
    ensures
        ident_run_end(s, k) == e,
    decreases e - k,
{
    if k < e {
        lemma_run_end(s, k + 1, e);
    }
}

/// Blanks from `b` to `c` are skipped.
proof fn lemma_blank_run(s: Seq<char>, b: int, c: int)
    requires
        0 <= b <= c <= s.len(),
        forall|x: int| b <= x < c ==> is_blank(#[trigger] s[x]),
    ensures
        skip_trivia_from(s, b, false) == skip_trivia_from(s, c, false),
    decreases c - b,
{
    if b < c {
        lemma_blank_run(s, b + 1, c);
    }
}

/// Two positions with the same first non-trivia position give the same tokens.
proof fn lemma_same_start(s: Seq<char>, i: int, j: int, d: Dialect)
    requires
        0 <= i <= j <= s.len(),
        skip_trivia(s, i) == skip_trivia(s, j),
    ensures
        spec_tokens_from(s, i, d) == spec_tokens_from(s, j, d),
{
    lemma_next_token(s, i, d);
    lemma_next_token(s, j, d);
}

proof fn lemma_units_text_first(us: Seq<Unit>)
    requires
        us.len() > 0,
        piece_ok(us[0].piece),
    ensures
        units_text(us).len() > 0,
        units_text(us)[0] == piece_text(us[0].piece)[0],
{
    let p = piece_text(us[0].piece);
    assert(p.len() > 0);
    assert(units_text(us) == p + us[0].gap + units_text(us.drop_first()));
}

/// A well-formed piece at `i`, followed by a character that cannot continue a word,
/// is the next token.
proof fn lemma_scan_piece(s: Seq<char>, i: int, p: Piece)
    requires
        0 <= i,
        i + piece_text(p).len() <= s.len(),
        piece_ok(p),
        forall|k: int| 0 <= k < piece_text(p).len() ==> s[i + k] == #[trigger] piece_text(p)[k],
        p is Word && i + piece_text(p).len() < s.len() ==> !is_ident_char(s[i + piece_text(p).len()]),
    ensures
        next_token(s, i, Dialect::Cpc) == Some((piece_scan(p), i, i + piece_text(p).len())),
        s.subrange(i, i + piece_text(p).len()) == piece_text(p),
{
    let pt = piece_text(p);
    let b = i + pt.len();
    assert(s[i] == pt[0]);
    assert(skip_trivia(s, i) == i);
    assert(s.subrange(i, b) =~= pt);
    match p {
        Piece::Word(w) => {
            assert forall|x: int| i + 1 <= x < b implies is_ident_char(#[trigger] s[x]) by {
                assert(s[i + (x - i)] == pt[x - i]);
            }
            lemma_run_end(s, i + 1, b);
            assert(scan(s, i, Dialect::Cpc) == (piece_scan(p), b));
        },
        Piece::Mark(m) => {
            assert(scan(s, i, Dialect::Cpc) == (piece_scan(p), b));
        },
    }
}

/// What the text of the units from `i` says, character by character.
proof fn lemma_units_split(s: Seq<char>, i: int, us: Seq<Unit>)
    requires
        0 <= i <= s.len(),
        s.subrange(i, s.len() as int) == units_text(us),
        us.len() > 0,
    ensures
        ({
            let pt = piece_text(us[0].piece);
            let c = i + pt.len() + us[0].gap.len();
            &&& c <= s.len()
            &&& forall|k: int| 0 <= k < pt.len() ==> s[i + k] == #[trigger] pt[k]
            &&& forall|k: int| 0 <= k < us[0].gap.len() ==> s[i + pt.len() + k] == #[trigger] us[0].gap[k]
            &&& s.subrange(c, s.len() as int) == units_text(us.drop_first())
        }),
{
    let u = us[0];
    let pt = piece_text(u.piece);
    let b = i + pt.len();
    let c = b + u.gap.len();
    let rest = us.drop_first();
    assert(units_text(us) == pt + u.gap + units_text(rest));
    assert forall|k: int| 0 <= k < pt.len() implies s[i + k] == #[trigger] pt[k] by {
        assert(s.subrange(i, s.len() as int)[k] == s[i + k]);
    }
    assert forall|k: int| 0 <= k < u.gap.len() implies s[b + k] == #[trigger] u.gap[k] by {
        assert(s.subrange(i, s.len() as int)[pt.len() + k] == s[b + k]);
    }
    assert(s.subrange(c, s.len() as int) =~= units_text(rest)) by {
        assert forall|k: int| 0 <= k < s.len() - c implies s.subrange(c, s.len() as int)[k] == units_text(rest)[k] by {
            assert(s.subrange(i, s.len() as int)[pt.len() + u.gap.len() + k] == s[c + k]);
        }
    }
}

proof fn lemma_units_ok_rest(us: Seq<Unit>)
    requires
        us.len() > 0,
        units_ok(us),
    ensures
        units_ok(us.drop_first()),
        piece_ok(us[0].piece),
        gap_ok(us[0].gap),
        us[0].piece is Word && us[0].gap.len() == 0 && us.len() > 1 ==> us[1].piece is Mark,
{
    let rest = us.drop_first();
    assert(piece_ok(us[0].piece) && gap_ok(us[0].gap));
    assert forall|j: int| 0 <= j < rest.len() implies piece_ok(#[trigger] rest[j].piece) && gap_ok(rest[j].gap) by {
        assert(rest[j] == us[j + 1]);
    }
    assert forall|j: int| 0 <= j < rest.len() - 1 && (#[trigger] rest[j].piece) is Word && rest[j].gap.len() == 0
        implies rest[j + 1].piece is Mark by {
        assert(rest[j] == us[j + 1]);
        assert(rest[j + 1] == us[j + 2]);
    }
}

/// One unit: its token, then the tokens after its gap.
#[verifier::rlimit(40)]
proof fn lemma_lex_step(s: Seq<char>, i: int, us: Seq<Unit>)
    requires
        0 <= i <= s.len(),
        s.subrange(i, s.len() as int) == units_text(us),
        units_ok(us),
        us.len() > 0,
    ensures
        ({
            let pt = piece_text(us[0].piece);
            let c = i + pt.len() + us[0].gap.len();
            &&& c <= s.len()
            &&& s.subrange(c, s.len() as int) == units_text(us.drop_first())
            &&& units_ok(us.drop_first())
            &&& s.subrange(i, i + pt.len()) == pt
            &&& spec_tokens_from(s, i, Dialect::Cpc)
                == seq![(piece_scan(us[0].piece), i, i + pt.len())] + spec_tokens_from(s, c, Dialect::Cpc)
        }),
{
    let d = Dialect::Cpc;
    let u = us[0];
    let pt = piece_text(u.piece);
    let rest = us.drop_first();
    let b = i + pt.len();
    let c = b + u.gap.len();
    lemma_units_split(s, i, us);
    lemma_units_ok_rest(us);
    if rest.len() > 0 {
        assert(rest[0] == us[1]);
        lemma_units_text_first(rest);
        assert(s.subrange(c, s.len() as int)[0] == s[c]);
    }
    assert(u.piece is Word && b < s.len() ==> !is_ident_char(s[b])) by {
        if u.piece is Word && b < s.len() {
            if u.gap.len() > 0 {
                assert(s[b] == u.gap[0]);
            } else {
                assert(rest.len() > 0);
                assert(rest[0].piece is Mark);
                let c1 = rest[0].piece->Mark_0;
                assert(piece_text(rest[0].piece) =~= seq![c1]);
                assert(mark_token(c1) is Some);
            }
        }
    }
    lemma_scan_piece(s, i, u.piece);
    lemma_next_token(s, i, d);
    assert(spec_tokens_from(s, i, d) == seq![(piece_scan(u.piece), i, b)] + spec_tokens_from(s, b, d));
    if u.gap.len() > 0 {
        assert forall|x: int| b <= x < c implies is_blank(#[trigger] s[x]) by {
            assert(s[b + (x - b)] == u.gap[x - b]);
        }
        lemma_blank_run(s, b, c);
        lemma_same_start(s, b, c, d);
    }
}

/// Text made of well-formed units, from `i` to the end of `s`, lexes to one token per
/// unit, of the unit's class and over the unit's text.
proof fn lemma_lex_units(s: Seq<char>, i: int, us: Seq<Unit>)
    requires
        0 <= i <= s.len(),
        s.subrange(i, s.len() as int) == units_text(us),
        units_ok(us),
    ensures
        spec_tokens_from(s, i, Dialect::Cpc).len() == us.len(),
        forall|j: int| 0 <= j < us.len() ==> {
            let e = #[trigger] spec_tokens_from(s, i, Dialect::Cpc)[j];
            &&& e.0 == piece_scan(us[j].piece)
            &&& s.subrange(e.1, e.2) == piece_text(us[j].piece)
        },
    decreases us.len(),
{
    let d = Dialect::Cpc;
    if us.len() == 0 {
        assert(s.subrange(i, s.len() as int).len() == 0);
        lemma_next_token(s, i, d);
        assert(spec_tokens_from(s, i, d) =~= Seq::<(Scan, int, int)>::empty());
    } else {
        let rest = us.drop_first();
        let c = i + piece_text(us[0].piece).len() + us[0].gap.len();
        lemma_lex_step(s, i, us);
        lemma_lex_units(s, c, rest);
        let ts = spec_tokens_from(s, i, d);
        assert forall|j: int| 0 <= j < us.len() implies {
            let e = #[trigger] ts[j];
            &&& e.0 == piece_scan(us[j].piece)
            &&& s.subrange(e.1, e.2) == piece_text(us[j].piece)
        } by {
            if j > 0 {
                assert(ts[j] == spec_tokens_from(s, c, d)[j - 1]);
                assert(us[j] == rest[j - 1]);
            }
        }
    }
}

// ------------------------------------------------------------------
// The pieces of an emitted signature
// ------------------------------------------------------------------

/// A word and what follows it.
pub open spec fn word(w: Seq<char>, gap: Seq<char>) -> Unit {
    Unit { piece: Piece::Word(w), gap }
}

/// A punctuation mark and what follows it.
pub open spec fn mark(c: char, gap: Seq<char>) -> Unit {
    Unit { piece: Piece::Mark(c), gap }
}

/// An identifier that is no keyword of the `cpc` dialect.
pub open spec fn plain_name(w: Seq<char>) -> bool {
    is_word(w) && keyword(w, Dialect::Cpc) is None
}

/// A type that the type grammar reads back as it is written: a primitive the type
/// grammar knows, a type name other than `pid`, or a tuple or object of such types
/// whose field names are plain names.
pub open spec fn plain_type(t: SType) -> bool
    decreases t, 0nat,
{
    match t {
        SType::I32 | SType::U32 | SType::U64 | SType::F32 | SType::USize
        | SType::Bool | SType::String | SType::Void | SType::Any => true,
        SType::Ref(id) => plain_name(id.sym) && id.sym != "pid"@,
        SType::Tuple(ts) => plain_types_from(ts, 0),
        SType::Object(fs) => plain_fields_from(fs, 0),
        _ => false,
    }
}

/// The types from index `i` on are plain.
pub open spec fn plain_types_from(ts: Seq<SType>, i: int) -> bool
    decreases ts, ts.len() - i,
{
    if i < 0 || i >= ts.len() {
        true
    } else {
        plain_type(ts[i]) && plain_types_from(ts, i + 1)
    }
}

/// The fields from index `i` on have plain names and plain types.
pub open spec fn plain_fields_from(fs: Seq<SField>, i: int) -> bool
    decreases fs, fs.len() - i,
{
    if i < 0 || i >= fs.len() {
        true
    } else {
        plain_name(fs[i].ident.sym) && plain_type(fs[i].ty) && plain_fields_from(fs, i + 1)
    }
}

/// A plain type written as one word.
pub open spec fn word_type(t: SType) -> bool {
    plain_type(t) && !(t is Tuple) && !(t is Object)
}

/// The units with `g` added to the gap of the last one.
pub open spec fn with_gap(us: Seq<Unit>, g: Seq<char>) -> Seq<Unit> {
    if us.len() == 0 {
        us
    } else {
        us.update(us.len() - 1, Unit { piece: us.last().piece, gap: us.last().gap + g })
    }
}

/// `, ` after every part but the last.
pub open spec fn comma_after(n: int, i: int) -> Seq<Unit> {
    if i < n - 1 { seq![mark(',', seq![' '])] } else { Seq::empty() }
}

/// The pieces of a type as the emitter writes it.
pub open spec fn type_units(t: SType) -> Seq<Unit>
    decreases t, 0nat,
{
    match t {
        SType::Tuple(ts) => seq![mark('[', Seq::empty())] + types_units(ts, 0) + seq![mark(']', Seq::empty())],
        SType::Object(fs) => if fs.len() == 0 {
            seq![mark('{', seq![' ', ' ']), mark('}', Seq::empty())]
        } else {
            seq![mark('{', seq![' '])] + with_gap(fields_units(fs, 0), seq![' ']) + seq![mark('}', Seq::empty())]
        },
        _ => seq![word(type_text(t), Seq::empty())],
    }
}

/// The pieces of the types from index `i` on, separated by `, `.
pub open spec fn types_units(ts: Seq<SType>, i: int) -> Seq<Unit>
    decreases ts, ts.len() - i,
{
    if i < 0 || i >= ts.len() {
        Seq::empty()
    } else {
        type_units(ts[i]) + comma_after(ts.len() as int, i) + types_units(ts, i + 1)
    }
}

/// The pieces of `name: type` for the fields from index `i` on, separated by `, `.
pub open spec fn fields_units(fs: Seq<SField>, i: int) -> Seq<Unit>
    decreases fs, fs.len() - i,
{
    if i < 0 || i >= fs.len() {
        Seq::empty()
    } else {
        seq![word(fs[i].ident.sym, Seq::empty()), mark(':', seq![' '])] + type_units(fs[i].ty)
            + comma_after(fs.len() as int, i) + fields_units(fs, i + 1)
    }
}

/// `name: type`, and `, ` unless it is the last parameter.
pub open spec fn param_units(p: SParam, last: bool) -> Seq<Unit> {
    seq![word(p.ident.sym, Seq::empty()), mark(':', seq![' '])] + type_units(p.ty)
        + if last { Seq::empty() } else { seq![mark(',', seq![' '])] }
}

/// The pieces of the parameters from index `i` on.
pub open spec fn params_units(ps: Seq<SParam>, i: int) -> Seq<Unit>
    decreases ps.len() - i,
{
    if i < 0 || i >= ps.len() {
        Seq::empty()
    } else {
        param_units(ps[i], i == ps.len() - 1) + params_units(ps, i + 1)
    }
}

/// `: type` when there is a return type.
pub open spec fn return_units(r: Option<SType>) -> Seq<Unit> {
    match r {
        Some(t) => seq![mark(':', seq![' '])] + type_units(t),
        None => Seq::empty(),
    }
}

/// `export async? fn name(`
pub open spec fn head_units(f: SFunction) -> Seq<Unit> {
    seq![word("export"@, seq![' '])]
        + (if f.is_async { seq![word("async"@, seq![' '])] } else { Seq::empty() })
        + seq![word("fn"@, seq![' ']), word(f.ident.sym, Seq::empty()), mark('(', Seq::empty())]
}

/// `)`, the return type, and `;` with its newline.
pub open spec fn tail_units(f: SFunction) -> Seq<Unit> {
    seq![mark(')', Seq::empty())] + return_units(f.return_type) + seq![mark(';', seq!['\n'])]
}

/// The pieces of `export ` and the signature text of `f`.
pub open spec fn function_units(f: SFunction) -> Seq<Unit> {
    head_units(f) + params_units(f.params, 0) + tail_units(f)
}

// ------------------------------------------------------------------
// The text of the pieces
// ------------------------------------------------------------------

proof fn lemma_units_text_add(a: Seq<Unit>, b: Seq<Unit>)
    ensures
        units_text(a + b) == units_text(a) + units_text(b),
    decreases a.len(),
{
    if a.len() == 0 {
        assert(a + b =~= b);
        assert(units_text(a) =~= Seq::<char>::empty());
        assert(units_text(a) + units_text(b) =~= units_text(b));
    } else {
        assert((a + b).drop_first() =~= a.drop_first() + b);
        lemma_units_text_add(a.drop_first(), b);
        assert((a + b)[0] == a[0]);
        assert(units_text(a + b) =~= units_text(a) + units_text(b));
    }
}

proof fn lemma_units_text_one(u: Unit)
    ensures
        units_text(seq![u]) == piece_text(u.piece) + u.gap,
{
    assert(seq![u].drop_first() =~= Seq::<Unit>::empty());
    assert(units_text(seq![u].drop_first()) =~= Seq::<char>::empty());
    assert(units_text(seq![u]) =~= piece_text(u.piece) + u.gap);
}

proof fn lemma_units_text_three(a: Seq<Unit>, b: Seq<Unit>, c: Seq<Unit>)
    ensures
        units_text(a + b + c) == units_text(a) + units_text(b) + units_text(c),
{
    lemma_units_text_add(a + b, c);
    lemma_units_text_add(a, b);
}

proof fn lemma_with_gap_text(us: Seq<Unit>, g: Seq<char>)
    requires
        us.len() > 0,
    ensures
        units_text(with_gap(us, g)) == units_text(us) + g,
{
    let w = with_gap(us, g);
    let n = us.len() - 1;
    assert(us =~= us.drop_last() + seq![us.last()]);
    assert(w =~= us.drop_last() + seq![w.last()]);
    lemma_units_text_add(us.drop_last(), seq![us.last()]);
    lemma_units_text_add(us.drop_last(), seq![w.last()]);
    lemma_units_text_one(us.last());
    lemma_units_text_one(w.last());
    assert(units_text(w) =~= units_text(us) + g);
}

proof fn lemma_comma_text(n: int, i: int)
    ensures
        units_text(comma_after(n, i)) == sep_after(n, i, ", "@),
{
    reveal_strlit(", ");
    if i < n - 1 {
        lemma_units_text_one(mark(',', seq![' ']));
        assert(units_text(comma_after(n, i)) =~= ", "@);
    } else {
        assert(units_text(comma_after(n, i)) =~= Seq::<char>::empty());
    }
}

proof fn lemma_type_units_text(t: SType)
    requires
        plain_type(t),
    ensures
        units_text(type_units(t)) == type_text(t),
    decreases t, 0nat,
{
    match t {
        SType::Tuple(ts) => {
            lemma_types_units_text(ts, 0);
            let a = seq![mark('[', Seq::empty())];
            let c = seq![mark(']', Seq::empty())];
            lemma_units_text_three(a, types_units(ts, 0), c);
            lemma_units_text_one(a[0]);
            lemma_units_text_one(c[0]);
            reveal_strlit("[");
            reveal_strlit("]");
            assert(units_text(type_units(t)) =~= type_text(t));
        },
        SType::Object(fs) => {
            reveal_strlit("{ ");
            reveal_strlit(" }");
            if fs.len() == 0 {
                let us = seq![mark('{', seq![' ', ' ']), mark('}', Seq::empty())];
                assert(us =~= seq![us[0]] + seq![us[1]]);
                lemma_units_text_add(seq![us[0]], seq![us[1]]);
                lemma_units_text_one(us[0]);
                lemma_units_text_one(us[1]);
                assert(crate::dcp::field_list_text(fs, 0) =~= Seq::<char>::empty());
                assert(type_units(t) == us);
                assert(units_text(type_units(t)) =~= type_text(t));
            } else {
                lemma_fields_units_text(fs, 0);
                let a = seq![mark('{', seq![' '])];
                let m = with_gap(fields_units(fs, 0), seq![' ']);
                let c = seq![mark('}', Seq::empty())];
                assert(fields_units(fs, 0).len() > 0);
                lemma_with_gap_text(fields_units(fs, 0), seq![' ']);
                lemma_units_text_three(a, m, c);
                lemma_units_text_one(a[0]);
                lemma_units_text_one(c[0]);
                assert(units_text(type_units(t)) =~= type_text(t));
            }
        },
        _ => {
            lemma_units_text_one(word(type_text(t), Seq::empty()));
            assert(units_text(type_units(t)) =~= type_text(t));
        },
    }
}

proof fn lemma_types_units_text(ts: Seq<SType>, i: int)
    requires
        0 <= i,
        plain_types_from(ts, i),
    ensures
        units_text(types_units(ts, i)) == crate::dcp::type_list_text(ts, i),
    decreases ts, ts.len() - i,
{
    if i < ts.len() {
        lemma_type_units_text(ts[i]);
        lemma_types_units_text(ts, i + 1);
        lemma_comma_text(ts.len() as int, i);
        lemma_units_text_three(type_units(ts[i]), comma_after(ts.len() as int, i), types_units(ts, i + 1));
    } else {
        assert(units_text(types_units(ts, i)) =~= Seq::<char>::empty());
    }
}

proof fn lemma_fields_units_text(fs: Seq<SField>, i: int)
    requires
        0 <= i,
        plain_fields_from(fs, i),
    ensures
        units_text(fields_units(fs, i)) == crate::dcp::field_list_text(fs, i),
    decreases fs, fs.len() - i,
{
    if i < fs.len() {
        lemma_type_units_text(fs[i].ty);
        lemma_fields_units_text(fs, i + 1);
        lemma_comma_text(fs.len() as int, i);
        let a = seq![word(fs[i].ident.sym, Seq::empty())];
        let b = seq![mark(':', seq![' '])];
        assert(seq![word(fs[i].ident.sym, Seq::empty()), mark(':', seq![' '])] =~= a + b);
        lemma_units_text_add(a, b);
        lemma_units_text_one(a[0]);
        lemma_units_text_one(b[0]);
        lemma_units_text_three(a + b, type_units(fs[i].ty), comma_after(fs.len() as int, i));
        lemma_units_text_add(a + b + type_units(fs[i].ty) + comma_after(fs.len() as int, i), fields_units(fs, i + 1));
        reveal_strlit(": ");
        assert(units_text(fields_units(fs, i)) =~= crate::dcp::field_list_text(fs, i));
    } else {
        assert(units_text(fields_units(fs, i)) =~= Seq::<char>::empty());
    }
}

/// Each parameter is a plain name, not `comptime`, with a plain type.
pub open spec fn plain_params(ps: Seq<SParam>) -> bool {
    forall|k: int| 0 <= k < ps.len() ==> {
        &&& plain_name((#[trigger] ps[k]).ident.sym)
        &&& !ps[k].is_comptime
        &&& plain_type(ps[k].ty)
    }
}

proof fn lemma_params_text(ps: Seq<SParam>, i: int)
    requires
        0 <= i,
        plain_params(ps),
    ensures
        params_text(ps, i) == units_text(params_units(ps, i)),
    decreases ps.len() - i,
{
    if i < ps.len() {
        lemma_params_text(ps, i + 1);
        let p = ps[i];
        let last = i == ps.len() - 1;
        lemma_type_units_text(p.ty);
        let a = seq![word(p.ident.sym, Seq::empty())];
        let b = seq![mark(':', seq![' '])];
        let c = type_units(p.ty);
        let d: Seq<Unit> = if last { Seq::empty() } else { seq![mark(',', seq![' '])] };
        assert(param_units(p, last) =~= a + b + c + d);
        lemma_units_text_add(a + b + c + d, params_units(ps, i + 1));
        lemma_units_text_add(a + b + c, d);
        lemma_units_text_add(a + b, c);
        lemma_units_text_add(a, b);
        lemma_units_text_one(a[0]);
        lemma_units_text_one(b[0]);
        reveal_strlit(": ");
        reveal_strlit(", ");
        if last {
            assert(units_text(d) =~= Seq::<char>::empty());
            assert(sep_after(ps.len() as int, i, ", "@) =~= Seq::<char>::empty());
        } else {
            lemma_units_text_one(d[0]);
            assert(sep_after(ps.len() as int, i, ", "@) =~= seq![',', ' ']);
        }
        assert(": "@ =~= seq![':', ' ']);
        assert(params_text(ps, i) =~= units_text(params_units(ps, i)));
    } else {
        assert(units_text(params_units(ps, i)) =~= Seq::<char>::empty());
    }
}

#[verifier::rlimit(60)]
#[verifier::spinoff_prover]
proof fn lemma_function_text(f: SFunction)
    requires
        plain_params(f.params),
        f.return_type matches Some(t) ==> plain_type(t),
    ensures
        "export "@ + function_text(f) == units_text(function_units(f)),
{
    reveal_strlit("export ");
    reveal_strlit("export");
    reveal_strlit("async ");
    reveal_strlit("async");
    reveal_strlit("fn ");
    reveal_strlit("fn");
    reveal_strlit("(");
    reveal_strlit(")");
    reveal_strlit(": ");
    reveal_strlit(";\n");
    lemma_params_text(f.params, 0);
    let e = seq![word("export"@, seq![' '])];
    let a: Seq<Unit> = if f.is_async { seq![word("async"@, seq![' '])] } else { Seq::empty() };
    let n = seq![word("fn"@, seq![' ']), word(f.ident.sym, Seq::empty()), mark('(', Seq::empty())];
    let pu = params_units(f.params, 0);
    let close = seq![mark(')', Seq::empty())];
    let r = return_units(f.return_type);
    let semi = seq![mark(';', seq!['\n'])];
    assert(function_units(f) =~= e + a + n + pu + close + r + semi);
    lemma_units_text_add(e + a + n + pu + close + r, semi);
    lemma_units_text_add(e + a + n + pu + close, r);
    lemma_units_text_add(e + a + n + pu, close);
    lemma_units_text_add(e + a + n, pu);
    lemma_units_text_add(e + a, n);
    lemma_units_text_add(e, a);
    lemma_units_text_one(e[0]);
    lemma_units_text_one(close[0]);
    lemma_units_text_one(semi[0]);
    if f.is_async {
        lemma_units_text_one(a[0]);
    } else {
        assert(units_text(a) =~= Seq::<char>::empty());
    }
    let n1 = seq![word(f.ident.sym, Seq::empty()), mark('(', Seq::empty())];
    assert(n =~= seq![n[0]] + n1);
    lemma_units_text_add(seq![n[0]], n1);
    assert(n1 =~= seq![n1[0]] + seq![n1[1]]);
    lemma_units_text_add(seq![n1[0]], seq![n1[1]]);
    lemma_units_text_one(n[0]);
    lemma_units_text_one(n1[0]);
    lemma_units_text_one(n1[1]);
    match f.return_type {
        Some(t) => {
            lemma_type_units_text(t);
            let c0 = seq![mark(':', seq![' '])];
            lemma_units_text_add(c0, type_units(t));
            lemma_units_text_one(c0[0]);
            assert(return_text(f.return_type) =~= units_text(r));
        },
        None => {
            assert(units_text(r) =~= Seq::<char>::empty());
            assert(return_text(f.return_type) =~= units_text(r));
        },
    }
    assert("export "@ + function_text(f) =~= units_text(function_units(f)));
}

// ------------------------------------------------------------------
// The pieces are well formed
// ------------------------------------------------------------------

proof fn lemma_units_ok_add(a: Seq<Unit>, b: Seq<Unit>)
    requires
        units_ok(a),
        units_ok(b),
        a.len() > 0 && b.len() > 0 && a.last().piece is Word && a.last().gap.len() == 0 ==> b[0].piece is Mark,
    ensures
        units_ok(a + b),
{
    let c = a + b;
    assert forall|j: int| 0 <= j < c.len() implies piece_ok(#[trigger] c[j].piece) && gap_ok(c[j].gap) by {
        if j < a.len() { assert(c[j] == a[j]); } else { assert(c[j] == b[j - a.len()]); }
    }
    assert forall|j: int| 0 <= j < c.len() - 1 && (#[trigger] c[j].piece) is Word && c[j].gap.len() == 0
        implies c[j + 1].piece is Mark by {
        if j < a.len() - 1 {
            assert(c[j] == a[j]);
            assert(c[j + 1] == a[j + 1]);
        } else if j == a.len() - 1 {
            assert(c[j] == a.last());
            assert(c[j + 1] == b[0]);
        } else {
            assert(c[j] == b[j - a.len()]);
            assert(c[j + 1] == b[j + 1 - a.len()]);
        }
    }
}

proof fn lemma_with_gap_ok(us: Seq<Unit>, g: Seq<char>)
    requires
        units_ok(us),
        gap_ok(g),
    ensures
        units_ok(with_gap(us, g)),
        with_gap(us, g).len() == us.len(),
        forall|j: int| 0 <= j < us.len() ==> (#[trigger] with_gap(us, g)[j]).piece == us[j].piece,
{
    let w = with_gap(us, g);
    if us.len() > 0 {
        let n = us.len() - 1;
        assert forall|j: int| 0 <= j < w.len() implies piece_ok(#[trigger] w[j].piece) && gap_ok(w[j].gap) by {
            if j == n {
                assert(piece_ok(us[n].piece) && gap_ok(us[n].gap));
                assert forall|k: int| 0 <= k < w[j].gap.len() implies is_blank(#[trigger] w[j].gap[k]) by {
                    if k < us[n].gap.len() { assert(w[j].gap[k] == us[n].gap[k]); } else { assert(w[j].gap[k] == g[k - us[n].gap.len()]); }
                }
            } else {
                assert(w[j] == us[j]);
            }
        }
        assert forall|j: int| 0 <= j < w.len() - 1 && (#[trigger] w[j].piece) is Word && w[j].gap.len() == 0
            implies w[j + 1].piece is Mark by {
            assert(w[j] == us[j]);
            assert(us[j].piece is Word && us[j].gap.len() == 0);
            assert(us[j + 1].piece is Mark);
        }
    }
}

proof fn lemma_type_word(t: SType)
    requires
        word_type(t),
    ensures
        is_word(type_text(t)),
{
    reveal_strlit("i32");
    reveal_strlit("u32");
    reveal_strlit("u64");
    reveal_strlit("f32");
    reveal_strlit("usize");
    reveal_strlit("bool");
    reveal_strlit("string");
    reveal_strlit("void");
    reveal_strlit("any");
}

proof fn lemma_comma_ok(n: int, i: int)
    ensures
        units_ok(comma_after(n, i)),
        comma_after(n, i).len() > 0 ==> comma_after(n, i)[0].piece is Mark && comma_after(n, i).last().piece is Mark,
        comma_after(n, i).len() > 0 <==> i < n - 1,
{
    let c = comma_after(n, i);
    assert forall|j: int| 0 <= j < c.len() implies piece_ok(#[trigger] c[j].piece) && gap_ok(c[j].gap) by {}
}

/// `a` followed by `b`, then by `c`, where `a` ends in a mark or `b` starts with one.
proof fn lemma_units_ok_then(a: Seq<Unit>, b: Seq<Unit>)
    requires
        units_ok(a),
        units_ok(b),
        a.len() == 0 || b.len() == 0 || a.last().piece is Mark || b[0].piece is Mark,
    ensures
        units_ok(a + b),
{
    lemma_units_ok_add(a, b);
}

proof fn lemma_type_units_ok(t: SType)
    requires
        plain_type(t),
    ensures
        units_ok(type_units(t)),
        type_units(t).len() > 0,
    decreases t, 0nat,
{
    match t {
        SType::Tuple(ts) => {
            lemma_types_units_ok(ts, 0);
            let a = seq![mark('[', Seq::empty())];
            let c = seq![mark(']', Seq::empty())];
            assert(units_ok(a)) by { assert forall|j: int| 0 <= j < (a).len() implies piece_ok(#[trigger] (a)[j].piece) && gap_ok((a)[j].gap) by {} }
            assert(units_ok(c)) by { assert forall|j: int| 0 <= j < (c).len() implies piece_ok(#[trigger] (c)[j].piece) && gap_ok((c)[j].gap) by {} }
            lemma_units_ok_then(a, types_units(ts, 0));
            lemma_units_ok_then(a + types_units(ts, 0), c);
        },
        SType::Object(fs) => {
            if fs.len() == 0 {
                assert(units_ok(type_units(t))) by { assert forall|j: int| 0 <= j < (type_units(t)).len() implies piece_ok(#[trigger] (type_units(t))[j].piece) && gap_ok((type_units(t))[j].gap) by {} }
            } else {
                lemma_fields_units_ok(fs, 0);
                lemma_with_gap_ok(fields_units(fs, 0), seq![' ']);
                let a = seq![mark('{', seq![' '])];
                let m = with_gap(fields_units(fs, 0), seq![' ']);
                let c = seq![mark('}', Seq::empty())];
                assert(units_ok(a)) by { assert forall|j: int| 0 <= j < (a).len() implies piece_ok(#[trigger] (a)[j].piece) && gap_ok((a)[j].gap) by {} }
                assert(units_ok(c)) by { assert forall|j: int| 0 <= j < (c).len() implies piece_ok(#[trigger] (c)[j].piece) && gap_ok((c)[j].gap) by {} }
                lemma_units_ok_then(a, m);
                lemma_units_ok_then(a + m, c);
            }
        },
        _ => {
            lemma_type_word(t);
            assert(units_ok(type_units(t))) by { assert forall|j: int| 0 <= j < (type_units(t)).len() implies piece_ok(#[trigger] (type_units(t))[j].piece) && gap_ok((type_units(t))[j].gap) by {} }
        },
    }
}

proof fn lemma_types_units_ok(ts: Seq<SType>, i: int)
    requires
        0 <= i,
        plain_types_from(ts, i),
    ensures
        units_ok(types_units(ts, i)),
    decreases ts, ts.len() - i,
{
    if i < ts.len() {
        lemma_type_units_ok(ts[i]);
        lemma_types_units_ok(ts, i + 1);
        lemma_comma_ok(ts.len() as int, i);
        let a = type_units(ts[i]);
        let b = comma_after(ts.len() as int, i);
        let r = types_units(ts, i + 1);
        lemma_units_ok_then(a, b);
        if b.len() > 0 {
            assert((a + b).last() == b.last());
        } else {
            assert(r.len() == 0);
        }
        lemma_units_ok_then(a + b, r);
    } else {
        assert(units_ok(types_units(ts, i))) by { assert forall|j: int| 0 <= j < (types_units(ts, i)).len() implies piece_ok(#[trigger] (types_units(ts, i))[j].piece) && gap_ok((types_units(ts, i))[j].gap) by {} }
    }
}

proof fn lemma_fields_units_ok(fs: Seq<SField>, i: int)
    requires
        0 <= i,
        plain_fields_from(fs, i),
    ensures
        units_ok(fields_units(fs, i)),
        i < fs.len() ==> fields_units(fs, i).len() > 0,
    decreases fs, fs.len() - i,
{
    if i < fs.len() {
        lemma_type_units_ok(fs[i].ty);
        lemma_fields_units_ok(fs, i + 1);
        lemma_comma_ok(fs.len() as int, i);
        let h = seq![word(fs[i].ident.sym, Seq::empty()), mark(':', seq![' '])];
        let a = type_units(fs[i].ty);
        let b = comma_after(fs.len() as int, i);
        let r = fields_units(fs, i + 1);
        assert(units_ok(h)) by { assert forall|j: int| 0 <= j < (h).len() implies piece_ok(#[trigger] (h)[j].piece) && gap_ok((h)[j].gap) by {} }
        lemma_units_ok_then(h, a);
        lemma_units_ok_then(h + a, b);
        if b.len() > 0 {
            assert((h + a + b).last() == b.last());
        } else {
            assert(r.len() == 0);
        }
        lemma_units_ok_then(h + a + b, r);
    } else {
        assert(units_ok(fields_units(fs, i))) by { assert forall|j: int| 0 <= j < (fields_units(fs, i)).len() implies piece_ok(#[trigger] (fields_units(fs, i))[j].piece) && gap_ok((fields_units(fs, i))[j].gap) by {} }
    }
}

proof fn lemma_params_units_ok(ps: Seq<SParam>, i: int)
    requires
        0 <= i,
        plain_params(ps),
    ensures
        units_ok(params_units(ps, i)),
    decreases ps.len() - i,
{
    if i < ps.len() {
        lemma_params_units_ok(ps, i + 1);
        let p = ps[i];
        let last = i == ps.len() - 1;
        lemma_type_units_ok(p.ty);
        let h = seq![word(p.ident.sym, Seq::empty()), mark(':', seq![' '])];
        let a = type_units(p.ty);
        let b: Seq<Unit> = if last { Seq::empty() } else { seq![mark(',', seq![' '])] };
        let r = params_units(ps, i + 1);
        assert(units_ok(h)) by { assert forall|j: int| 0 <= j < (h).len() implies piece_ok(#[trigger] (h)[j].piece) && gap_ok((h)[j].gap) by {} }
        assert(units_ok(b)) by { assert forall|j: int| 0 <= j < (b).len() implies piece_ok(#[trigger] (b)[j].piece) && gap_ok((b)[j].gap) by {} }
        lemma_units_ok_then(h, a);
        lemma_units_ok_then(h + a, b);
        if !last {
            assert((h + a + b).last() == b.last());
        } else {
            assert(r.len() == 0);
        }
        assert(param_units(p, last) == h + a + b);
        lemma_units_ok_then(h + a + b, r);
    } else {
        assert(units_ok(params_units(ps, i))) by { assert forall|j: int| 0 <= j < (params_units(ps, i)).len() implies piece_ok(#[trigger] (params_units(ps, i))[j].piece) && gap_ok((params_units(ps, i))[j].gap) by {} }
    }
}

/// A signature whose parts the type grammar reads back as they were: plain names,
/// parameters that are not `comptime`, plain types, and not the entry point `main`.
pub open spec fn plain_signature(f: SFunction) -> bool {
    &&& plain_name(f.ident.sym)
    &&& f.ident.sym != "main"@
    &&& plain_params(f.params)
    &&& match f.return_type {
        Some(t) => plain_type(t),
        None => true,
    }
}

proof fn lemma_function_units_ok(f: SFunction)
    requires
        plain_signature(f),
    ensures
        units_ok(function_units(f)),
{
    reveal_strlit("export");
    reveal_strlit("async");
    reveal_strlit("fn");
    let h = head_units(f);
    let pu = params_units(f.params, 0);
    assert(units_ok(h)) by { assert forall|j: int| 0 <= j < (h).len() implies piece_ok(#[trigger] (h)[j].piece) && gap_ok((h)[j].gap) by {} }
    lemma_params_units_ok(f.params, 0);
    let c = seq![mark(')', Seq::empty())];
    let r = return_units(f.return_type);
    let e = seq![mark(';', seq!['\n'])];
    assert(units_ok(c)) by { assert forall|j: int| 0 <= j < (c).len() implies piece_ok(#[trigger] (c)[j].piece) && gap_ok((c)[j].gap) by {} }
    assert(units_ok(e)) by { assert forall|j: int| 0 <= j < (e).len() implies piece_ok(#[trigger] (e)[j].piece) && gap_ok((e)[j].gap) by {} }
    match f.return_type {
        Some(t) => {
            lemma_type_units_ok(t);
            let c0 = seq![mark(':', seq![' '])];
            assert(units_ok(c0)) by { assert forall|j: int| 0 <= j < (c0).len() implies piece_ok(#[trigger] (c0)[j].piece) && gap_ok((c0)[j].gap) by {} }
            lemma_units_ok_then(c0, type_units(t));
        },
        None => {
            assert(units_ok(r)) by { assert forall|j: int| 0 <= j < (r).len() implies piece_ok(#[trigger] (r)[j].piece) && gap_ok((r)[j].gap) by {} }
        },
    }
    lemma_units_ok_then(c, r);
    lemma_units_ok_then(c + r, e);
    assert(tail_units(f) == c + r + e);
    lemma_units_ok_then(h, pu);
    lemma_units_ok_then(h + pu, tail_units(f));
}

// ------------------------------------------------------------------
// The tokens of the emitted module
// ------------------------------------------------------------------

/// `tk` is the token that the lexer gives for the piece `p`.
pub open spec fn token_fits(p: Piece, tk: Token) -> bool {
    match piece_scan(p) {
        Scan::Fixed(k) => tk == k,
        Scan::Ident => tk is Ident && tk->Ident_0@ == piece_text(p),
        _ => false,
    }
}

/// The module that holds only the function `f`.
pub open spec fn module_of(f: SFunction, span: Span) -> SModule {
    SModule { span, body: seq![SModuleItem::Decl(SDecl::Func(f))] }
}

proof fn lemma_comment_run(s: Seq<char>, j: int, k: int)
    requires
        0 <= j <= k <= s.len(),
        forall|x: int| j <= x < k ==> #[trigger] s[x] != '\n',
    ensures
        skip_trivia_from(s, j, true) == skip_trivia_from(s, k, true),
    decreases k - j,
{
    if j < k {
        lemma_comment_run(s, j + 1, k);
    }
}

proof fn lemma_module_text(f: SFunction, span: Span)
    requires
        plain_signature(f),
    ensures
        ({
            let s = module_text(module_of(f, span));
            &&& s.len() >= 28
            &&& s.subrange(28, s.len() as int) == units_text(function_units(f))
            &&& spec_tokens(s, Dialect::Cpc) == spec_tokens_from(s, 28, Dialect::Cpc)
        }),
{
    let m = module_of(f, span);
    let s = module_text(m);
    let head = "// Type definitions for CP\n\n"@;
    reveal_strlit("// Type definitions for CP\n\n");
    reveal_strlit("export ");
    assert(head.len() == 28);
    assert(items_text(m.body, 1) =~= Seq::<char>::empty());
    assert(items_text(m.body, 0) == item_text(m.body[0]) + items_text(m.body, 1));
    assert(decl_text(SDecl::Func(f)) == "export "@ + function_text(f));
    lemma_function_text(f);
    let x = units_text(function_units(f));
    assert(s =~= head + x);
    assert(s.subrange(28, s.len() as int) =~= x);
    assert(s[0] == '/' && s[1] == '/');
    assert(forall|k: int| 2 <= k < 26 ==> #[trigger] s[k] != '\n') by {
        assert forall|k: int| 2 <= k < 26 implies #[trigger] s[k] != '\n' by {
            assert(s[k] == head[k]);
        }
    }
    lemma_comment_run(s, 2, 26);
    assert(s[26] == '\n' && s[27] == '\n');
    assert(skip_trivia(s, 0) == skip_trivia_from(s, 2, true));
    assert(skip_trivia_from(s, 26, true) == skip_trivia_from(s, 27, false));
    assert(skip_trivia_from(s, 27, false) == skip_trivia(s, 28));
    lemma_same_start(s, 0, 28, Dialect::Cpc);
}

/// The emitted text of a module that holds one plain signature lexes to one token
/// per piece of the signature.
proof fn lemma_module_tokens(f: SFunction, span: Span, toks: Seq<Tok>)
    requires
        plain_signature(f),
        lexes_to(module_text(module_of(f, span)), Dialect::Cpc, toks),
    ensures
        toks.len() == function_units(f).len(),
        forall|j: int| 0 <= j < toks.len() ==> token_fits(function_units(f)[j].piece, (#[trigger] toks[j]).token),
{
    let s = module_text(module_of(f, span));
    let us = function_units(f);
    lemma_module_text(f, span);
    lemma_function_units_ok(f);
    lemma_lex_units(s, 28, us);
    let ts = spec_tokens(s, Dialect::Cpc);
    assert forall|j: int| 0 <= j < toks.len() implies token_fits(us[j].piece, (#[trigger] toks[j]).token) by {
        assert(tok_matches(s, Dialect::Cpc, toks[j], ts[j]));
        let e = ts[j];
        assert(e == spec_tokens_from(s, 28, Dialect::Cpc)[j]);
        assert(token_denotes(toks[j].token, s, e.0, e.1, e.2, Dialect::Cpc));
    }
}

// ------------------------------------------------------------------
// Reading the tokens back
// ------------------------------------------------------------------

/// The tokens from `p` on are those of the units `us`, one for one.
pub open spec fn matches(t: Seq<Tok>, p: int, us: Seq<Unit>) -> bool {
    &&& 0 <= p
    &&& p + us.len() <= t.len()
    &&& forall|j: int| 0 <= j < us.len() ==> token_fits((#[trigger] us[j]).piece, t[p + j].token)
}

/// `a` is the type `b`: type names compared by their names, tuples and objects part
/// by part.
pub open spec fn type_agrees(a: SType, b: SType) -> bool
    decreases b, 0nat,
{
    match b {
        SType::Ref(y) => a is Ref && a->Ref_0.sym == y.sym,
        SType::Tuple(ys) => a is Tuple && a->Tuple_0.len() == ys.len() && types_agree_from(a->Tuple_0, ys, 0),
        SType::Object(ys) => a is Object && a->Object_0.len() == ys.len() && fields_agree_from(a->Object_0, ys, 0),
        _ => a == b,
    }
}

/// The types from index `i` on agree.
pub open spec fn types_agree_from(xs: Seq<SType>, ys: Seq<SType>, i: int) -> bool
    decreases ys, ys.len() - i,
{
    if i < 0 || i >= ys.len() {
        true
    } else {
        i < xs.len() && type_agrees(xs[i], ys[i]) && types_agree_from(xs, ys, i + 1)
    }
}

/// The fields from index `i` on have the same names and agreeing types.
pub open spec fn fields_agree_from(xs: Seq<SField>, ys: Seq<SField>, i: int) -> bool
    decreases ys, ys.len() - i,
{
    if i < 0 || i >= ys.len() {
        true
    } else {
        i < xs.len() && xs[i].ident.sym == ys[i].ident.sym && type_agrees(xs[i].ty, ys[i].ty)
            && fields_agree_from(xs, ys, i + 1)
    }
}

/// Same name, agreeing type, and the same `comptime` flag.
pub open spec fn param_agrees(a: SParam, b: SParam) -> bool {
    &&& a.ident.sym == b.ident.sym
    &&& type_agrees(a.ty, b.ty)
    &&& a.is_comptime == b.is_comptime
}

proof fn lemma_matches_split(t: Seq<Tok>, p: int, a: Seq<Unit>, b: Seq<Unit>)
    requires
        matches(t, p, a + b),
    ensures
        matches(t, p, a),
        matches(t, p + a.len(), b),
{
    let c = a + b;
    assert forall|j: int| 0 <= j < a.len() implies token_fits((#[trigger] a[j]).piece, t[p + j].token) by {
        assert(c[j] == a[j]);
    }
    assert forall|j: int| 0 <= j < b.len() implies token_fits((#[trigger] b[j]).piece, t[p + a.len() + j].token) by {
        assert(c[a.len() + j] == b[j]);
        assert(p + (a.len() + j) == p + a.len() + j);
    }
}

proof fn lemma_matches_split3(t: Seq<Tok>, p: int, a: Seq<Unit>, b: Seq<Unit>, c: Seq<Unit>)
    requires
        matches(t, p, a + b + c),
    ensures
        matches(t, p, a),
        matches(t, p + a.len(), b),
        matches(t, p + a.len() + b.len(), c),
{
    lemma_matches_split(t, p, a + b, c);
    lemma_matches_split(t, p, a, b);
}

/// The token of the unit at index `j`.
proof fn lemma_matches_at(t: Seq<Tok>, p: int, us: Seq<Unit>, j: int)
    requires
        matches(t, p, us),
        0 <= j < us.len(),
    ensures
        token_fits(us[j].piece, t[p + j].token),
{
}

proof fn lemma_matches_gap(t: Seq<Tok>, p: int, us: Seq<Unit>, g: Seq<char>)
    requires
        matches(t, p, with_gap(us, g)),
    ensures
        matches(t, p, us),
        with_gap(us, g).len() == us.len(),
{
    let w = with_gap(us, g);
    assert forall|j: int| 0 <= j < us.len() implies token_fits((#[trigger] us[j]).piece, t[p + j].token) by {
        assert(w[j].piece == us[j].piece);
    }
}

proof fn lemma_types_agree_from_forall(xs: Seq<SType>, ys: Seq<SType>, i: int)
    requires
        xs.len() == ys.len(),
        0 <= i,
        forall|k: int| 0 <= k < ys.len() ==> type_agrees(#[trigger] xs[k], ys[k]),
    ensures
        types_agree_from(xs, ys, i),
    decreases ys.len() - i,
{
    if i < ys.len() {
        lemma_types_agree_from_forall(xs, ys, i + 1);
        assert(type_agrees(xs[i], ys[i]));
    }
}

/// Same name and agreeing type.
pub open spec fn field_agrees(a: SField, b: SField) -> bool {
    a.ident.sym == b.ident.sym && type_agrees(a.ty, b.ty)
}

proof fn lemma_fields_agree_from_forall(xs: Seq<SField>, ys: Seq<SField>, i: int)
    requires
        xs.len() == ys.len(),
        0 <= i,
        forall|k: int| 0 <= k < ys.len() ==> field_agrees(#[trigger] xs[k], ys[k]),
    ensures
        fields_agree_from(xs, ys, i),
    decreases ys.len() - i,
{
    if i < ys.len() {
        lemma_fields_agree_from_forall(xs, ys, i + 1);
        assert(field_agrees(xs[i], ys[i]));
    }
}

/// A name token is read back as that name.
proof fn lemma_g_name(t: Seq<Tok>, p: int, w: Seq<char>)
    requires
        0 <= p < t.len(),
        plain_name(w),
        token_fits(Piece::Word(w), t[p].token),
    ensures
        t[p].token is Ident,
        g_ident(t, p) == Ok::<_, SParseError>((SIdent { span: t[p].span, sym: w }, p + 1)),
{
}

#[verifier::rlimit(60)]
#[verifier::spinoff_prover]
proof fn lemma_g_word_type(t: Seq<Tok>, p: int, ty: SType)
    requires
        0 <= p,
        p + 1 < t.len(),
        word_type(ty),
        token_fits(Piece::Word(type_text(ty)), t[p].token),
        t[p + 1].token != Token::Question,
    ensures
        g_type(t, p) is Ok,
        g_type(t, p)->Ok_0.1 == p + 1,
        type_agrees(g_type(t, p)->Ok_0.0, ty),
{
    reveal_strlit("i32");
    reveal_strlit("u32");
    reveal_strlit("u64");
    reveal_strlit("f32");
    reveal_strlit("usize");
    reveal_strlit("bool");
    reveal_strlit("string");
    reveal_strlit("void");
    reveal_strlit("any");
    reveal_strlit("pid");
    let tk = t[p].token;
    match ty {
        SType::I32 => { assert(keyword("i32"@, Dialect::Cpc) == Some(Token::I32)); },
        SType::U32 => { assert(keyword("u32"@, Dialect::Cpc) == Some(Token::U32)); },
        SType::U64 => { assert(keyword("u64"@, Dialect::Cpc) == Some(Token::U64)); },
        SType::F32 => { assert(keyword("f32"@, Dialect::Cpc) == Some(Token::F32)); },
        SType::USize => { assert(keyword("usize"@, Dialect::Cpc) == Some(Token::USize)); },
        SType::Bool => { assert(keyword("bool"@, Dialect::Cpc) == Some(Token::Bool)); },
        SType::String => { assert(keyword("string"@, Dialect::Cpc) == Some(Token::String)); },
        SType::Void => { assert(keyword("void"@, Dialect::Cpc) == Some(Token::Void)); },
        SType::Any => { assert(keyword("any"@, Dialect::Cpc) == Some(Token::Any)); },
        SType::Ref(id) => {
            assert(tk is Ident);
            assert(tk->Ident_0@ == id.sym);
            assert(tk->Ident_0@ != "pid"@);
        },
        _ => {},
    }
    assert(!is_at(t, p, Token::LBracket) && !is_at(t, p, Token::LBrace) && !is_at(t, p, Token::Question));
    assert(skip_if(t, p, Token::Question) == p);
    assert(!is_at(t, p + 1, Token::Question));
    assert(base_type(tk, t[p].span) is Some);
}

/// A plain type, followed by a token other than `?`, is read back as itself.
#[verifier::rlimit(60)]
#[verifier::spinoff_prover]
proof fn lemma_g_type_units(t: Seq<Tok>, p: int, ty: SType)
    requires
        plain_type(ty),
        matches(t, p, type_units(ty)),
        p + type_units(ty).len() < t.len(),
        t[p + type_units(ty).len()].token != Token::Question,
    ensures
        g_type(t, p) is Ok,
        g_type(t, p)->Ok_0.1 == p + type_units(ty).len(),
        type_agrees(g_type(t, p)->Ok_0.0, ty),
    decreases ty, 0nat,
{
    let n = type_units(ty).len();
    match ty {
        SType::Tuple(ts) => {
            let a = seq![mark('[', Seq::empty())];
            let m = types_units(ts, 0);
            let c = seq![mark(']', Seq::empty())];
            lemma_matches_split3(t, p, a, m, c);
            lemma_matches_at(t, p, a, 0);
            lemma_matches_at(t, p + 1 + m.len(), c, 0);
            assert(t[p].token == Token::LBracket);
            assert(t[p + 1 + m.len()].token == Token::RBracket);
            lemma_g_type_elems_units(t, p + 1, ts, 0);
            let r = g_type_elems(t, p + 1);
            lemma_types_agree_from_forall(r->Ok_0.0, ts, 0);
            assert(is_at(t, p, Token::LBracket));
            assert(g_expect(t, p + 1 + m.len(), Token::RBracket) is Ok);
        },
        SType::Object(fs) => {
            if fs.len() == 0 {
                let us = type_units(ty);
                lemma_matches_at(t, p, us, 0);
                lemma_matches_at(t, p, us, 1);
                assert(t[p].token == Token::LBrace);
                assert(t[p + 1].token == Token::RBrace);
                assert(g_type_fields(t, p + 1) == Ok::<_, SParseError>((Seq::<SField>::empty(), p + 1)));
                let r = g_type(t, p)->Ok_0.0;
                assert(r->Object_0 =~= Seq::<SField>::empty());
                assert(fields_agree_from(r->Object_0, fs, 0));
            } else {
                let a = seq![mark('{', seq![' '])];
                let fu = fields_units(fs, 0);
                let m = with_gap(fu, seq![' ']);
                let c = seq![mark('}', Seq::empty())];
                lemma_matches_split3(t, p, a, m, c);
                lemma_matches_gap(t, p + 1, fu, seq![' ']);
                lemma_matches_at(t, p, a, 0);
                lemma_matches_at(t, p + 1 + m.len(), c, 0);
                assert(t[p].token == Token::LBrace);
                assert(t[p + 1 + fu.len()].token == Token::RBrace);
                lemma_g_type_fields_units(t, p + 1, fs, 0);
                let r = g_type_fields(t, p + 1);
                lemma_fields_agree_from_forall(r->Ok_0.0, fs, 0);
                assert(!is_at(t, p, Token::LBracket) && is_at(t, p, Token::LBrace));
                assert(g_expect(t, p + 1 + fu.len(), Token::RBrace) is Ok);
            }
        },
        _ => {
            lemma_matches_at(t, p, type_units(ty), 0);
            lemma_g_word_type(t, p, ty);
        },
    }
}

/// The types from index `i` on, followed by `]`, are read back as themselves.
#[verifier::rlimit(60)]
#[verifier::spinoff_prover]
proof fn lemma_g_type_elems_units(t: Seq<Tok>, p: int, ts: Seq<SType>, i: int)
    requires
        0 <= i <= ts.len(),
        plain_types_from(ts, i),
        matches(t, p, types_units(ts, i)),
        p + types_units(ts, i).len() < t.len(),
        t[p + types_units(ts, i).len()].token == Token::RBracket,
    ensures
        g_type_elems(t, p) is Ok,
        g_type_elems(t, p)->Ok_0.1 == p + types_units(ts, i).len(),
        g_type_elems(t, p)->Ok_0.0.len() == ts.len() - i,
        forall|k: int| 0 <= k < ts.len() - i ==> type_agrees(#[trigger] g_type_elems(t, p)->Ok_0.0[k], ts[i + k]),
    decreases ts, ts.len() - i,
{
    if i == ts.len() {
        assert(types_units(ts, i).len() == 0);
        assert(is_at(t, p, Token::RBracket));
    } else {
        let a = type_units(ts[i]);
        let b = comma_after(ts.len() as int, i);
        let rest = types_units(ts, i + 1);
        assert(types_units(ts, i) == a + b + rest);
        lemma_matches_split3(t, p, a, b, rest);
        lemma_type_units_ok(ts[i]);
        let q = p + a.len();
        let next = q + b.len();
        if b.len() > 0 {
            lemma_matches_at(t, q, b, 0);
            assert(t[q].token == Token::Comma);
        } else {
            assert(rest.len() == 0);
            assert(t[q].token == Token::RBracket);
        }
        lemma_g_type_units(t, p, ts[i]);
        assert(!is_at(t, p, Token::RBracket)) by {
            if is_at(t, p, Token::RBracket) {
                assert(g_type(t, p) is Err);
            }
        }
        assert(skip_if(t, q, Token::Comma) == next);
        lemma_g_type_elems_units(t, next, ts, i + 1);
        let x = g_type(t, p)->Ok_0.0;
        let r = g_type_elems(t, p);
        let rr = g_type_elems(t, next);
        assert(r == Ok::<_, SParseError>((seq![x] + rr->Ok_0.0, rr->Ok_0.1)));
        assert forall|k: int| 0 <= k < ts.len() - i implies type_agrees(#[trigger] r->Ok_0.0[k], ts[i + k]) by {
            if k > 0 {
                assert(r->Ok_0.0[k] == rr->Ok_0.0[k - 1]);
                assert(type_agrees(rr->Ok_0.0[k - 1], ts[i + 1 + (k - 1)]));
            } else {
                assert(r->Ok_0.0[0] == x);
            }
        }
    }
}

/// The fields from index `i` on, followed by `}`, are read back as themselves.
#[verifier::rlimit(60)]
#[verifier::spinoff_prover]
proof fn lemma_g_type_fields_units(t: Seq<Tok>, p: int, fs: Seq<SField>, i: int)
    requires
        0 <= i <= fs.len(),
        plain_fields_from(fs, i),
        matches(t, p, fields_units(fs, i)),
        p + fields_units(fs, i).len() < t.len(),
        t[p + fields_units(fs, i).len()].token == Token::RBrace,
    ensures
        g_type_fields(t, p) is Ok,
        g_type_fields(t, p)->Ok_0.1 == p + fields_units(fs, i).len(),
        g_type_fields(t, p)->Ok_0.0.len() == fs.len() - i,
        forall|k: int| 0 <= k < fs.len() - i ==> field_agrees(#[trigger] g_type_fields(t, p)->Ok_0.0[k], fs[i + k]),
    decreases fs, fs.len() - i,
{
    if i == fs.len() {
        assert(fields_units(fs, i).len() == 0);
        assert(is_at(t, p, Token::RBrace));
    } else {
        let h = seq![word(fs[i].ident.sym, Seq::empty()), mark(':', seq![' '])];
        let a = type_units(fs[i].ty);
        let b = comma_after(fs.len() as int, i);
        let rest = fields_units(fs, i + 1);
        assert(fields_units(fs, i) == h + a + b + rest);
        lemma_matches_split(t, p, h + a + b, rest);
        lemma_matches_split3(t, p, h, a, b);
        lemma_matches_at(t, p, h, 0);
        lemma_matches_at(t, p, h, 1);
        lemma_g_name(t, p, fs[i].ident.sym);
        assert(t[p + 1].token == Token::Colon);
        let q = p + 2 + a.len();
        let next = q + b.len();
        if b.len() > 0 {
            lemma_matches_at(t, q, b, 0);
            assert(t[q].token == Token::Comma);
        } else {
            assert(rest.len() == 0);
            assert(t[q].token == Token::RBrace);
        }
        lemma_g_type_units(t, p + 2, fs[i].ty);
        assert(!is_at(t, p, Token::RBrace));
        let x = g_type_field(t, p);
        assert(x is Ok && x->Ok_0.1 == q);
        assert(field_agrees(x->Ok_0.0, fs[i]));
        assert(skip_if(t, q, Token::Comma) == next);
        lemma_g_type_fields_units(t, next, fs, i + 1);
        let r = g_type_fields(t, p);
        let rr = g_type_fields(t, next);
        assert(r == Ok::<_, SParseError>((seq![x->Ok_0.0] + rr->Ok_0.0, rr->Ok_0.1)));
        assert forall|k: int| 0 <= k < fs.len() - i implies field_agrees(#[trigger] r->Ok_0.0[k], fs[i + k]) by {
            if k > 0 {
                assert(r->Ok_0.0[k] == rr->Ok_0.0[k - 1]);
                assert(field_agrees(rr->Ok_0.0[k - 1], fs[i + 1 + (k - 1)]));
            } else {
                assert(r->Ok_0.0[0] == x->Ok_0.0);
            }
        }
    }
}

/// The parameters from index `i` on, followed by `)`, are read back as themselves.
#[verifier::rlimit(60)]
#[verifier::spinoff_prover]
proof fn lemma_g_param_list(t: Seq<Tok>, ps: Seq<SParam>, i: int, p: int)
    requires
        plain_params(ps),
        0 <= i <= ps.len(),
        matches(t, p, params_units(ps, i)),
        p + params_units(ps, i).len() < t.len(),
        t[p + params_units(ps, i).len()].token == Token::RParen,
    ensures
        g_param_list(t, p) is Ok,
        g_param_list(t, p)->Ok_0.1 == p + params_units(ps, i).len(),
        g_param_list(t, p)->Ok_0.0.len() == ps.len() - i,
        forall|k: int| 0 <= k < ps.len() - i ==> param_agrees(#[trigger] g_param_list(t, p)->Ok_0.0[k], ps[i + k]),
    decreases ps.len() - i,
{
    if i == ps.len() {
        assert(params_units(ps, i).len() == 0);
        assert(is_at(t, p, Token::RParen));
    } else {
        let pi = ps[i];
        assert(plain_name(pi.ident.sym) && !pi.is_comptime && plain_type(pi.ty));
        let last = i == ps.len() - 1;
        let h = seq![word(pi.ident.sym, Seq::empty()), mark(':', seq![' '])];
        let a = type_units(pi.ty);
        let b: Seq<Unit> = if last { Seq::empty() } else { seq![mark(',', seq![' '])] };
        let rest = params_units(ps, i + 1);
        assert(params_units(ps, i) == h + a + b + rest);
        lemma_matches_split(t, p, h + a + b, rest);
        lemma_matches_split3(t, p, h, a, b);
        lemma_matches_at(t, p, h, 0);
        lemma_matches_at(t, p, h, 1);
        lemma_g_name(t, p, pi.ident.sym);
        assert(t[p + 1].token == Token::Colon);
        let q = p + 2 + a.len();
        let next = q + b.len();
        if !last {
            lemma_matches_at(t, q, b, 0);
            assert(t[q].token == Token::Comma);
        } else {
            assert(rest.len() == 0);
            assert(t[q].token == Token::RParen);
        }
        lemma_g_type_units(t, p + 2, pi.ty);
        assert(!is_at(t, p, Token::RParen));
        let gp = g_param(t, p);
        assert(gp is Ok && gp->Ok_0.1 == q);
        assert(param_agrees(gp->Ok_0.0, pi));
        assert(skip_if(t, q, Token::Comma) == next);
        lemma_g_param_list(t, ps, i + 1, next);
        let r = g_param_list(t, p);
        let rr = g_param_list(t, next);
        assert(r == Ok::<_, SParseError>((seq![gp->Ok_0.0] + rr->Ok_0.0, rr->Ok_0.1)));
        assert forall|k: int| 0 <= k < ps.len() - i implies param_agrees(#[trigger] r->Ok_0.0[k], ps[i + k]) by {
            if k > 0 {
                assert(r->Ok_0.0[k] == rr->Ok_0.0[k - 1]);
                assert(param_agrees(rr->Ok_0.0[k - 1], ps[i + 1 + (k - 1)]));
            } else {
                assert(r->Ok_0.0[0] == gp->Ok_0.0);
            }
        }
    }
}

/// The function `g` has the signature of `f`, up to the places of its parts.
pub open spec fn same_signature(g: SFunction, f: SFunction) -> bool {
    &&& g.ident.sym == f.ident.sym
    &&& g.is_async == f.is_async
    &&& g.params.len() == f.params.len()
    &&& forall|i: int| 0 <= i < f.params.len() ==> param_agrees(#[trigger] g.params[i], f.params[i])
    &&& match (g.return_type, f.return_type) {
        (Some(a), Some(b)) => type_agrees(a, b),
        (None, None) => true,
        _ => false,
    }
}

/// The tokens of a plain signature, part by part.
#[verifier::rlimit(60)]
#[verifier::spinoff_prover]
proof fn lemma_signature_tokens(t: Seq<Tok>, f: SFunction)
    requires
        plain_signature(f),
        t.len() == function_units(f).len(),
        matches(t, 0, function_units(f)),
    ensures
        ({
            let a: int = if f.is_async { 1 } else { 0 };
            let base = 4 + a;
            let close = base + params_units(f.params, 0).len();
            &&& t[0].token == Token::Export
            &&& (f.is_async ==> t[1].token == Token::Async)
            &&& t[1 + a].token == Token::Fn
            &&& t[2 + a].token is Ident && t[2 + a].token->Ident_0@ == f.ident.sym
            &&& t[3 + a].token == Token::LParen
            &&& matches(t, base, params_units(f.params, 0))
            &&& t[close].token == Token::RParen
            &&& match f.return_type {
                Some(ty) => {
                    &&& t.len() == close + 3 + type_units(ty).len()
                    &&& t[close + 1].token == Token::Colon
                    &&& matches(t, close + 2, type_units(ty))
                    &&& t[close + 2 + type_units(ty).len()].token == Token::Semicolon
                },
                None => {
                    &&& t.len() == close + 2
                    &&& t[close + 1].token == Token::Semicolon
                },
            }
        }),
{
    reveal_strlit("export");
    reveal_strlit("async");
    reveal_strlit("fn");
    let a: int = if f.is_async { 1 } else { 0 };
    let h = head_units(f);
    let pu = params_units(f.params, 0);
    let tl = tail_units(f);
    lemma_matches_split3(t, 0, h, pu, tl);
    let base = 4 + a;
    let close = base + pu.len();
    assert(h.len() == base);
    lemma_matches_at(t, 0, h, 0);
    assert(keyword("export"@, Dialect::Cpc) == Some(Token::Export));
    if f.is_async {
        lemma_matches_at(t, 0, h, 1);
        assert(keyword("async"@, Dialect::Cpc) == Some(Token::Async));
    }
    lemma_matches_at(t, 0, h, 1 + a);
    assert(keyword("fn"@, Dialect::Cpc) == Some(Token::Fn));
    lemma_matches_at(t, 0, h, 2 + a);
    lemma_matches_at(t, 0, h, 3 + a);
    let c = seq![mark(')', Seq::empty())];
    let r = return_units(f.return_type);
    let e = seq![mark(';', seq!['\n'])];
    assert(tl == c + r + e);
    lemma_matches_split3(t, close, c, r, e);
    lemma_matches_at(t, close, c, 0);
    lemma_matches_at(t, close + 1 + r.len(), e, 0);
    match f.return_type {
        Some(ty) => {
            let c0 = seq![mark(':', seq![' '])];
            assert(r == c0 + type_units(ty));
            lemma_matches_split(t, close + 1, c0, type_units(ty));
            lemma_matches_at(t, close + 1, c0, 0);
        },
        None => {},
    }
}

/// The grammar reads the tokens of a plain signature, after `export`, as a function
/// with that signature and no body.
#[verifier::rlimit(80)]
#[verifier::spinoff_prover]
proof fn lemma_g_signature(t: Seq<Tok>, s: Seq<char>, f: SFunction)
    requires
        plain_signature(f),
        t.len() == function_units(f).len(),
        matches(t, 0, function_units(f)),
    ensures
        g_function(t, s, 1) is Ok,
        g_function(t, s, 1)->Ok_0.1 == t.len(),
        same_signature(g_function(t, s, 1)->Ok_0.0, f),
        g_function(t, s, 1)->Ok_0.0.body.body.len() == 0,
{
    lemma_signature_tokens(t, f);
    let ps = f.params;
    let a: int = if f.is_async { 1 } else { 0 };
    let base = 4 + a;
    let close = base + params_units(ps, 0).len();
    assert(is_at(t, 1, Token::Async) == f.is_async);
    assert(skip_if(t, 1, Token::Async) == 1 + a);
    assert(g_expect(t, 1 + a, Token::Fn) == Ok::<_, SParseError>((t[1 + a].span, 2 + a)));
    let id = SIdent { span: t[2 + a].span, sym: f.ident.sym };
    assert(g_ident(t, 2 + a) == Ok::<_, SParseError>((id, 3 + a)));
    assert(g_expect(t, 3 + a, Token::LParen) == Ok::<_, SParseError>((t[3 + a].span, base)));
    lemma_g_param_list(t, ps, 0, base);
    let pl = g_param_list(t, base);
    assert(g_expect(t, close, Token::RParen) == Ok::<_, SParseError>((t[close].span, close + 1)));
    assert(g_params(t, 3 + a) == Ok::<_, SParseError>((pl->Ok_0.0, close + 1)));
    let q3 = match f.return_type { Some(ty) => close + 2 + type_units(ty).len(), None => close + 1 };
    match f.return_type {
        Some(ty) => {
            assert(is_at(t, close + 1, Token::Colon));
            lemma_g_type_units(t, close + 2, ty);
        },
        None => {
            assert(!is_at(t, close + 1, Token::Colon));
        },
    }
    let rt = g_return_type(t, close + 1);
    assert(rt is Ok && rt->Ok_0.1 == q3);
    assert(is_at(t, q3, Token::Semicolon));
    let g = g_function(t, s, 1)->Ok_0.0;
    assert(g_function(t, s, 1) is Ok);
    assert(g.params == pl->Ok_0.0);
    assert forall|i: int| 0 <= i < f.params.len() implies param_agrees(#[trigger] g.params[i], f.params[i]) by {
        assert(param_agrees(pl->Ok_0.0[i], ps[0 + i]));
    }
}

/// Law: the type definitions emitted for a module that holds one function read
/// back, through the lexer and the grammar, as a module that holds one function
/// with the same name, `async` flag, parameter names and types, and return type,
/// and with an empty body. This holds of every signature whose names are plain
/// identifiers, whose parameters are not `comptime`, and whose types are built from
/// the primitives the type grammar knows (all but `f64`), type names other than
/// `pid`, tuples and objects; a type name is compared by its name, tuples and
/// objects part by part.
pub proof fn law_emitted_signature_reads_back(f: SFunction, span: Span, toks: Seq<Tok>)
    requires
        plain_signature(f),
        lexes_to(module_text(module_of(f, span)), Dialect::Cpc, toks),
    ensures
        match g_module(toks, module_text(module_of(f, span)), 0) {
            Ok((m, _)) => {
                &&& m.body.len() == 1
                &&& m.body[0] is Decl
                &&& m.body[0]->Decl_0 is Func
                &&& same_signature(m.body[0]->Decl_0->Func_0, f)
                &&& m.body[0]->Decl_0->Func_0.body.body.len() == 0
            },
            Err(_) => false,
        },
{
    let s = module_text(module_of(f, span));
    lemma_module_tokens(f, span, toks);
    let us = function_units(f);
    assert forall|j: int| 0 <= j < us.len() implies token_fits((#[trigger] us[j]).piece, toks[0 + j].token) by {
        assert(token_fits(us[j].piece, toks[j].token));
    }
    lemma_g_signature(toks, s, f);
    lemma_signature_tokens(toks, f);
    assert(skip_if(toks, 0, Token::Export) == 1);
    assert(!is_at(toks, 1, Token::Import));
    assert(is_at(toks, 1, Token::Fn) || is_at(toks, 1, Token::Async));
    assert(starts_decl(toks, 1));
    let gf = g_function(toks, s, 1);
    assert(g_decl(toks, s, 1) == Ok::<_, SParseError>((SDecl::Func(gf->Ok_0.0), toks.len() as int)));
    assert(g_module_item(toks, s, 0) == Ok::<_, SParseError>((SModuleItem::Decl(SDecl::Func(gf->Ok_0.0)), toks.len() as int)));
    assert(g_module_items(toks, s, toks.len() as int) == Ok::<_, SParseError>((Seq::<SModuleItem>::empty(), toks.len() as int)));
    let items = g_module_items(toks, s, 0);
    assert(items is Ok);
    assert(items->Ok_0.0 =~= seq![SModuleItem::Decl(SDecl::Func(gf->Ok_0.0))]);
}

} // verus!
