//! The parser: a single forward cursor over the token vector that files each
//! message type and TLV stream declaration in a symbol table.
use vstd::prelude::*;

use crate::ast::{
    FieldView, LNMsData, LNMsg, LNMsgType, LNSubType, LNTlvEntry, LNTlvRecord, MsgView,
    SubTypeView, TlvEntryView, TlvRecordView, DeclView,
};
use crate::table::SymbolTable;
use crate::token::{is_declaration_kind, tokens_view, CSVToken, CSVTokenType, TokenView};

verus! {

/// Why a token vector is not a valid declaration list.
#[derive(Clone, Copy, PartialEq, Eq, Debug, Structural)]
pub enum ParseError {
    /// A token of the wrong kind where a declaration or a code was expected.
    UnexpectedToken,
    /// A continuation line names another declaration than the open one.
    NameMismatch,
    /// A numeric code that is not a decimal literal in range.
    BadNumber,
    /// A field type that is neither a known type nor a stream name.
    UnknownType,
    /// The tokens ran out before the declaration was complete.
    UnexpectedEnd,
}

pub open spec fn is_digit(c: char) -> bool {
    '0' <= c && c <= '9'
}

pub open spec fn all_digits(s: Seq<char>) -> bool {
    forall|i: int| 0 <= i < s.len() ==> is_digit(#[trigger] s[i])
}

pub open spec fn digit_value(c: char) -> nat {
    ((c as u32) - ('0' as u32)) as nat
}

/// The value of a string of decimal digits.
pub open spec fn decimal_value(s: Seq<char>) -> nat
    decreases s.len(),
{
    if s.len() == 0 {
        0
    } else {
        decimal_value(s.drop_last()) * 10 + digit_value(s.last())
    }
}

/// The number that `s` spells in decimal, if it does and it is at most `max`.
pub open spec fn number_of(s: Seq<char>, max: u64) -> Option<u64> {
    if s.len() > 0 && all_digits(s) && decimal_value(s) <= max {
        Some(decimal_value(s) as u64)
    } else {
        None
    }
}

/// Kinds after which a byte field takes no length token: the start of the
/// next line, or the end of the stream.
pub open spec fn ends_line(k: CSVTokenType) -> bool {
    is_declaration_kind(k) || k == CSVTokenType::EOF
}

/// The data field declared by the line whose tag stands at `j`, for the
/// declaration named `owner`, and how many tokens follow the four fixed ones
/// (tag, owner, field name, type).
pub open spec fn data_field(t: Seq<TokenView>, j: nat, owner: Seq<char>) -> Result<(FieldView, nat), ParseError> {
    if j >= t.len() {
        Err(ParseError::UnexpectedEnd)
    } else if t[j as int].ty != CSVTokenType::MsgData && t[j as int].ty != CSVTokenType::SubMsgData {
        Err(ParseError::UnexpectedToken)
    } else if j + 1 >= t.len() {
        Err(ParseError::UnexpectedEnd)
    } else if t[(j + 1) as int].text != owner {
        Err(ParseError::NameMismatch)
    } else if j + 3 >= t.len() {
        Err(ParseError::UnexpectedEnd)
    } else {
        let name = t[(j + 2) as int].text;
        let ty = t[(j + 3) as int];
        match ty.ty {
            CSVTokenType::U16 => Ok((FieldView::Uint16(name), 0)),
            CSVTokenType::U32 => Ok((FieldView::Uint32(name), 0)),
            CSVTokenType::U64 => Ok((FieldView::Uint64(name), 0)),
            CSVTokenType::ChainHash => Ok((FieldView::ChainHash(name, name), 0)),
            CSVTokenType::ChannelId => Ok((FieldView::ChannelId(name), 0)),
            CSVTokenType::Signature => Ok((FieldView::Signature(name), 0)),
            CSVTokenType::ShortChannelId => Ok((FieldView::ShortChannelId(name), 0)),
            CSVTokenType::Point => Ok((FieldView::Point(name), 0)),
            CSVTokenType::Byte => {
                if j + 4 >= t.len() {
                    Err(ParseError::UnexpectedEnd)
                } else if ends_line(t[(j + 4) as int].ty) {
                    Ok((FieldView::BitfieldStream(name, seq!['1']), 0))
                } else {
                    Ok((FieldView::BitfieldStream(name, t[(j + 4) as int].text), 1))
                }
            },
            CSVTokenType::LiteralString => Ok((FieldView::TLVinit(ty.text, name), 0)),
            _ => Err(ParseError::UnknownType),
        }
    }
}

/// The fields of the consecutive lines tagged `tag` from `j` on, in order,
/// and how many tokens those lines take.
pub open spec fn data_fields(t: Seq<TokenView>, j: nat, owner: Seq<char>, tag: CSVTokenType) -> Result<(Seq<FieldView>, nat), ParseError>
    decreases t.len() - j,
{
    if j >= t.len() {
        Err(ParseError::UnexpectedEnd)
    } else if t[j as int].ty != tag {
        Ok((seq![], 0))
    } else {
        match data_field(t, j, owner) {
            Ok((f, x)) => match data_fields(t, j + 4 + x, owner, tag) {
                Ok((fs, m)) => Ok((seq![f] + fs, 4 + x + m)),
                Err(e) => Err(e),
            },
            Err(e) => Err(e),
        }
    }
}

/// The header of the message type whose keyword stands at `p`, and how many
/// tokens follow the keyword in it.
pub open spec fn msg_header(t: Seq<TokenView>, p: nat) -> Result<(MsgView, nat), ParseError> {
    if p >= t.len() {
        Err(ParseError::UnexpectedEnd)
    } else if t[p as int].ty != CSVTokenType::MsgTy {
        Err(ParseError::UnexpectedToken)
    } else if p + 2 >= t.len() {
        Err(ParseError::UnexpectedEnd)
    } else if t[(p + 2) as int].ty != CSVTokenType::Number {
        Err(ParseError::UnexpectedToken)
    } else {
        match number_of(t[(p + 2) as int].text, 0xffff) {
            None => Err(ParseError::BadNumber),
            Some(code) => {
                if p + 3 >= t.len() {
                    Err(ParseError::UnexpectedEnd)
                } else {
                    let gossip = t[(p + 3) as int].text == "gossip_queries"@;
                    Ok((
                        MsgView { code: code as u16, name: t[(p + 1) as int].text, fields: seq![], gossip },
                        if gossip { 3 } else { 2 },
                    ))
                }
            },
        }
    }
}

/// The message type declared from `p` on, and how many tokens follow its keyword.
pub open spec fn msg_decl(t: Seq<TokenView>, p: nat) -> Result<(MsgView, nat), ParseError> {
    match msg_header(t, p) {
        Ok((h, n)) => match data_fields(t, p + 1 + n, h.name, CSVTokenType::MsgData) {
            Ok((fs, m)) => Ok((MsgView { fields: fs, ..h }, n + m)),
            Err(e) => Err(e),
        },
        Err(e) => Err(e),
    }
}

/// The subtype declared from `p` on, and how many tokens follow its keyword.
pub open spec fn subtype_decl(t: Seq<TokenView>, p: nat) -> Result<(SubTypeView, nat), ParseError> {
    if p >= t.len() {
        Err(ParseError::UnexpectedEnd)
    } else if t[p as int].ty != CSVTokenType::SubTy {
        Err(ParseError::UnexpectedToken)
    } else if p + 1 >= t.len() {
        Err(ParseError::UnexpectedEnd)
    } else {
        let name = t[(p + 1) as int].text;
        match data_fields(t, p + 2, name, CSVTokenType::SubMsgData) {
            Ok((fs, m)) => Ok((SubTypeView { name, fields: fs }, 1 + m)),
            Err(e) => Err(e),
        }
    }
}

/// The header of the TLV stream whose keyword stands at `p`, and how many
/// tokens follow the keyword in it.
pub open spec fn tlv_header(t: Seq<TokenView>, p: nat) -> Result<(TlvRecordView, nat), ParseError> {
    if p >= t.len() {
        Err(ParseError::UnexpectedEnd)
    } else if t[p as int].ty != CSVTokenType::TlvType {
        Err(ParseError::UnexpectedToken)
    } else if p + 1 >= t.len() {
        Err(ParseError::UnexpectedEnd)
    } else if t[(p + 1) as int].ty != CSVTokenType::LiteralString {
        Err(ParseError::UnexpectedToken)
    } else if p + 3 >= t.len() {
        Err(ParseError::UnexpectedEnd)
    } else {
        match number_of(t[(p + 3) as int].text, 0xffff_ffff_ffff_ffff) {
            None => Err(ParseError::BadNumber),
            Some(code) => Ok((
                TlvRecordView {
                    stream: t[(p + 1) as int].text,
                    disc_name: t[(p + 2) as int].text,
                    code,
                    entries: seq![],
                },
                3,
            )),
        }
    }
}

/// The entry declared by the line whose tag stands at `j`, for the stream
/// `stream` with discriminant `disc`, and how many tokens follow the five
/// fixed ones (tag, stream, discriminant, name, type): one for an ellipsis.
pub open spec fn tlv_entry(t: Seq<TokenView>, j: nat, stream: Seq<char>, disc: Seq<char>) -> Result<(TlvEntryView, nat), ParseError> {
    if j >= t.len() {
        Err(ParseError::UnexpectedEnd)
    } else if t[j as int].ty != CSVTokenType::TlvData {
        Err(ParseError::UnexpectedToken)
    } else if j + 1 >= t.len() {
        Err(ParseError::UnexpectedEnd)
    } else if t[(j + 1) as int].text != stream {
        Err(ParseError::NameMismatch)
    } else if j + 2 >= t.len() {
        Err(ParseError::UnexpectedEnd)
    } else if t[(j + 2) as int].text != disc {
        Err(ParseError::NameMismatch)
    } else if j + 5 >= t.len() {
        Err(ParseError::UnexpectedEnd)
    } else {
        Ok((
            TlvEntryView { name: t[(j + 3) as int].text, ty: t[(j + 4) as int].text },
            if t[(j + 5) as int].ty == CSVTokenType::Dotdotdot { 1 } else { 0 },
        ))
    }
}

/// The entries of the consecutive TLV data lines from `j` on, in order, and
/// how many tokens those lines take.
pub open spec fn tlv_entries(t: Seq<TokenView>, j: nat, stream: Seq<char>, disc: Seq<char>) -> Result<(Seq<TlvEntryView>, nat), ParseError>
    decreases t.len() - j,
{
    if j >= t.len() {
        Err(ParseError::UnexpectedEnd)
    } else if t[j as int].ty != CSVTokenType::TlvData {
        Ok((seq![], 0))
    } else {
        match tlv_entry(t, j, stream, disc) {
            Ok((e, x)) => match tlv_entries(t, j + 5 + x, stream, disc) {
                Ok((es, m)) => Ok((seq![e] + es, 5 + x + m)),
                Err(err) => Err(err),
            },
            Err(err) => Err(err),
        }
    }
}

/// The TLV stream declared from `p` on, and how many tokens follow its keyword.
pub open spec fn tlv_decl(t: Seq<TokenView>, p: nat) -> Result<(TlvRecordView, nat), ParseError> {
    match tlv_header(t, p) {
        Ok((h, n)) => match tlv_entries(t, p + 1 + n, h.stream, h.disc_name) {
            Ok((es, m)) => Ok((TlvRecordView { entries: es, ..h }, n + m)),
            Err(e) => Err(e),
        },
        Err(e) => Err(e),
    }
}

/// The table that the declarations from `p` on make of `table`, up to the
/// end-of-stream token.
pub open spec fn parse_decls(t: Seq<TokenView>, p: nat, table: Map<Seq<char>, DeclView>) -> Result<Map<Seq<char>, DeclView>, ParseError>
    decreases t.len() - p,
{
    if p >= t.len() {
        Err(ParseError::UnexpectedEnd)
    } else {
        match t[p as int].ty {
            CSVTokenType::EOF => Ok(table),
            CSVTokenType::MsgTy => match msg_decl(t, p) {
                Ok((m, n)) => if p + 1 + n < t.len() {
                    parse_decls(t, p + 1 + n, table.insert(m.name, DeclView::Msg(m)))
                } else {
                    Err(ParseError::UnexpectedEnd)
                },
                Err(e) => Err(e),
            },
            CSVTokenType::SubTy => match subtype_decl(t, p) {
                Ok((_s, n)) => if p + 1 + n < t.len() {
                    parse_decls(t, p + 1 + n, table)
                } else {
                    Err(ParseError::UnexpectedEnd)
                },
                Err(e) => Err(e),
            },
            CSVTokenType::TlvType => match tlv_decl(t, p) {
                Ok((r, n)) => if p + 1 + n < t.len() {
                    parse_decls(t, p + 1 + n, table.insert(r.stream, DeclView::Tlv(r)))
                } else {
                    Err(ParseError::UnexpectedEnd)
                },
                Err(e) => Err(e),
            },
            _ => Err(ParseError::UnexpectedToken),
        }
    }
}

/// The symbol table that a token sequence declares.
pub open spec fn parse_tokens(t: Seq<TokenView>) -> Result<Map<Seq<char>, DeclView>, ParseError> {
    parse_decls(t, 0, Map::empty())
}

/// A result for the whole of a run of lines, given what was gathered over
/// its first `c` tokens and the result for the rest.
pub open spec fn glue<A>(acc: Seq<A>, c: nat, r: Result<(Seq<A>, nat), ParseError>) -> Result<(Seq<A>, nat), ParseError> {
    match r {
        Ok((xs, m)) => Ok((acc + xs, c + m)),
        Err(e) => Err(e),
    }
}

/// Data fields keep the order of their lines: the `k`-th field of a run of
/// data lines is the field declared by the `k`-th line, and the lines stand
/// one after the other from `j` on. The positions of the lines are returned.
pub proof fn lemma_fields_in_line_order(t: Seq<TokenView>, j: nat, owner: Seq<char>, tag: CSVTokenType) -> (ps: Seq<nat>)
    requires
        data_fields(t, j, owner, tag) is Ok,
    ensures
        ps.len() == data_fields(t, j, owner, tag)->Ok_0.0.len(),
        ps.len() > 0 ==> ps[0] == j,
        forall|k: int| #![trigger ps[k]] 0 <= k < ps.len() ==> {
            &&& ps[k] < t.len()
            &&& t[ps[k] as int].ty == tag
            &&& data_field(t, ps[k], owner) is Ok
            &&& data_field(t, ps[k], owner)->Ok_0.0 == data_fields(t, j, owner, tag)->Ok_0.0[k]
        },
        forall|k: int| #![trigger ps[k]] 0 <= k < ps.len() - 1 ==> ps[k + 1] == ps[k] + 4 + data_field(t, ps[k], owner)->Ok_0.1,
    decreases t.len() - j,
{
    if t[j as int].ty != tag {
        seq![]
    } else {
        let (f, x) = data_field(t, j, owner)->Ok_0;
        let rest = lemma_fields_in_line_order(t, j + 4 + x, owner, tag);
        let ps = seq![j] + rest;
        assert forall|k: int| #![trigger ps[k]] 1 <= k < ps.len() implies ps[k] == rest[k - 1] by {}
        ps
    }
}

/// TLV entries keep the order of their lines: the `k`-th entry of a run of
/// TLV data lines is the one declared by the `k`-th line, and the lines stand
/// one after the other from `j` on. The positions of the lines are returned.
pub proof fn lemma_entries_in_line_order(t: Seq<TokenView>, j: nat, stream: Seq<char>, disc: Seq<char>) -> (ps: Seq<nat>)
    requires
        tlv_entries(t, j, stream, disc) is Ok,
    ensures
        ps.len() == tlv_entries(t, j, stream, disc)->Ok_0.0.len(),
        ps.len() > 0 ==> ps[0] == j,
        forall|k: int| #![trigger ps[k]] 0 <= k < ps.len() ==> {
            &&& ps[k] < t.len()
            &&& t[ps[k] as int].ty == CSVTokenType::TlvData
            &&& tlv_entry(t, ps[k], stream, disc) is Ok
            &&& tlv_entry(t, ps[k], stream, disc)->Ok_0.0 == tlv_entries(t, j, stream, disc)->Ok_0.0[k]
        },
        forall|k: int| #![trigger ps[k]] 0 <= k < ps.len() - 1 ==> ps[k + 1] == ps[k] + 5 + tlv_entry(t, ps[k], stream, disc)->Ok_0.1,
    decreases t.len() - j,
{
    if t[j as int].ty != CSVTokenType::TlvData {
        seq![]
    } else {
        let (e, x) = tlv_entry(t, j, stream, disc)->Ok_0;
        let rest = lemma_entries_in_line_order(t, j + 5 + x, stream, disc);
        let ps = seq![j] + rest;
        assert forall|k: int| #![trigger ps[k]] 1 <= k < ps.len() implies ps[k] == rest[k - 1] by {}
        ps
    }
}

/// `d` is what the declaration whose keyword stands at `q` files under `k`.
pub open spec fn declared_at(t: Seq<TokenView>, q: nat, k: Seq<char>, d: DeclView) -> bool {
    match d {
        DeclView::Msg(mv) => msg_decl(t, q) is Ok && msg_decl(t, q)->Ok_0.0 == mv && mv.name == k,
        DeclView::Tlv(rv) => tlv_decl(t, q) is Ok && tlv_decl(t, q)->Ok_0.0 == rv && rv.stream == k,
    }
}

proof fn lemma_filed_entry_source(t: Seq<TokenView>, p: nat, table: Map<Seq<char>, DeclView>, k: Seq<char>)
    requires
        parse_decls(t, p, table) is Ok,
        parse_decls(t, p, table)->Ok_0.contains_key(k),
    ensures
        ({
            let m = parse_decls(t, p, table)->Ok_0;
            ||| table.contains_key(k) && m[k] == table[k]
            ||| exists|q: nat| p <= q && #[trigger] declared_at(t, q, k, m[k])
        }),
    decreases t.len() - p,
{
    let m = parse_decls(t, p, table)->Ok_0;
    match t[p as int].ty {
        CSVTokenType::MsgTy => {
            let (mv, n) = msg_decl(t, p)->Ok_0;
            let next = table.insert(mv.name, DeclView::Msg(mv));
            lemma_filed_entry_source(t, p + 1 + n, next, k);
            if next.contains_key(k) && m[k] == next[k] {
                if k == mv.name {
                    assert(declared_at(t, p, k, m[k]));
                }
            } else {
                let q = choose|q: nat| p + 1 + n <= q && #[trigger] declared_at(t, q, k, m[k]);
                assert(declared_at(t, q, k, m[k]));
            }
        },
        CSVTokenType::TlvType => {
            let (rv, n) = tlv_decl(t, p)->Ok_0;
            let next = table.insert(rv.stream, DeclView::Tlv(rv));
            lemma_filed_entry_source(t, p + 1 + n, next, k);
            if next.contains_key(k) && m[k] == next[k] {
                if k == rv.stream {
                    assert(declared_at(t, p, k, m[k]));
                }
            } else {
                let q = choose|q: nat| p + 1 + n <= q && #[trigger] declared_at(t, q, k, m[k]);
                assert(declared_at(t, q, k, m[k]));
            }
        },
        CSVTokenType::SubTy => {
            let n = subtype_decl(t, p)->Ok_0.1;
            lemma_filed_entry_source(t, p + 1 + n, table, k);
            if !(table.contains_key(k) && m[k] == table[k]) {
                let q = choose|q: nat| p + 1 + n <= q && #[trigger] declared_at(t, q, k, m[k]);
                assert(declared_at(t, q, k, m[k]));
            }
        },
        _ => {},
    }
}

/// Every declaration in the parsed table keeps the order of its lines: the
/// `i`-th data field of a message (or the `i`-th entry of a TLV stream) filed
/// under `k` is the one declared by the `i`-th of its continuation lines, and
/// those lines stand one after the other. The positions of the lines are
/// returned.
pub proof fn lemma_table_in_line_order(t: Seq<TokenView>, k: Seq<char>) -> (ps: Seq<nat>)
    requires
        parse_tokens(t) is Ok,
        parse_tokens(t)->Ok_0.contains_key(k),
    ensures
        match parse_tokens(t)->Ok_0[k] {
            DeclView::Msg(mv) => {
                &&& mv.name == k
                &&& ps.len() == mv.fields.len()
                &&& forall|i: int| #![trigger ps[i]] 0 <= i < ps.len() ==> {
                    &&& ps[i] < t.len()
                    &&& t[ps[i] as int].ty == CSVTokenType::MsgData
                    &&& data_field(t, ps[i], k) is Ok
                    &&& data_field(t, ps[i], k)->Ok_0.0 == mv.fields[i]
                }
                &&& forall|i: int| #![trigger ps[i]] 0 <= i < ps.len() - 1
                    ==> ps[i + 1] == ps[i] + 4 + data_field(t, ps[i], k)->Ok_0.1
            },
            DeclView::Tlv(rv) => {
                &&& rv.stream == k
                &&& ps.len() == rv.entries.len()
                &&& forall|i: int| #![trigger ps[i]] 0 <= i < ps.len() ==> {
                    &&& ps[i] < t.len()
                    &&& t[ps[i] as int].ty == CSVTokenType::TlvData
                    &&& tlv_entry(t, ps[i], k, rv.disc_name) is Ok
                    &&& tlv_entry(t, ps[i], k, rv.disc_name)->Ok_0.0 == rv.entries[i]
                }
                &&& forall|i: int| #![trigger ps[i]] 0 <= i < ps.len() - 1
                    ==> ps[i + 1] == ps[i] + 5 + tlv_entry(t, ps[i], k, rv.disc_name)->Ok_0.1
            },
        },
{
    let m = parse_tokens(t)->Ok_0;
    lemma_filed_entry_source(t, 0, Map::empty(), k);
    let q = choose|q: nat| 0 <= q && #[trigger] declared_at(t, q, k, m[k]);
    match m[k] {
        DeclView::Msg(mv) => {
            let (h, n) = msg_header(t, q)->Ok_0;
            lemma_fields_in_line_order(t, q + 1 + n, k, CSVTokenType::MsgData)
        },
        DeclView::Tlv(rv) => {
            let (h, n) = tlv_header(t, q)->Ok_0;
            lemma_entries_in_line_order(t, q + 1 + n, k, rv.disc_name)
        },
    }
}

/// Parsing depends on the tokens alone: two parses of equal token
/// sequences give the same table, or the same error.
pub proof fn lemma_parse_deterministic(a: Seq<TokenView>, b: Seq<TokenView>)
    requires
        a == b,
    ensures
        parse_tokens(a) == parse_tokens(b),
{
}

/// A data line that names another declaration than the open one is
/// rejected with a name mismatch.
pub proof fn lemma_data_line_name_mismatch(t: Seq<TokenView>, j: nat, owner: Seq<char>)
    requires
        j + 1 < t.len(),
        t[j as int].ty == CSVTokenType::MsgData || t[j as int].ty == CSVTokenType::SubMsgData,
        t[j + 1 as int].text != owner,
    ensures
        data_field(t, j, owner) == Err::<(FieldView, nat), ParseError>(ParseError::NameMismatch),
{
}

/// A byte field takes the next token as its length unless that token starts
/// a line or ends the stream; then its length is `1`.
pub proof fn lemma_byte_field_length(t: Seq<TokenView>, j: nat, owner: Seq<char>)
    requires
        j + 4 < t.len(),
        t[j as int].ty == CSVTokenType::MsgData || t[j as int].ty == CSVTokenType::SubMsgData,
        t[j + 1 as int].text == owner,
        t[j + 3 as int].ty == CSVTokenType::Byte,
    ensures
        ends_line(t[j + 4 as int].ty) ==> data_field(t, j, owner)
            == Ok::<(FieldView, nat), ParseError>((FieldView::BitfieldStream(t[j + 2 as int].text, seq!['1']), 0)),
        !ends_line(t[j + 4 as int].ty) ==> data_field(t, j, owner)
            == Ok::<(FieldView, nat), ParseError>((FieldView::BitfieldStream(t[j + 2 as int].text, t[j + 4 as int].text), 1)),
{
}

proof fn lemma_glue<A>(acc: Seq<A>, c: nat, x: A, n: nat, r: Result<(Seq<A>, nat), ParseError>)
    ensures
        glue(acc, c, glue(seq![x], n, r)) == glue(acc.push(x), c + n, r),
{
    if let Ok((xs, m)) = r {
        assert(acc + (seq![x] + xs) =~= acc.push(x) + xs);
    }
}

proof fn lemma_decimal_prefix(s: Seq<char>, k: int)
    requires
        0 <= k <= s.len(),
        all_digits(s),
    ensures
        decimal_value(s.subrange(0, k)) <= decimal_value(s),
    decreases s.len(),
{
    if k < s.len() {
        lemma_decimal_prefix(s.drop_last(), k);
        assert(s.drop_last().subrange(0, k) =~= s.subrange(0, k));
        assert(all_digits(s.drop_last()));
    } else {
        assert(s.subrange(0, k) =~= s);
    }
}

/// Reads `s` as a decimal number no larger than `max`.
pub fn parse_number(s: &String, max: u64) -> (r: Option<u64>)
    ensures
        r == number_of(s@, max),
{
    let st = s.as_str();
    let n = st.unicode_len();
    if n == 0 {
        return None;
    }
    let mut acc: u64 = 0;
    let mut i: usize = 0;
    while i < n
        invariant
            n == s@.len(),
            st@ == s@,
            0 <= i <= n,
            all_digits(s@.subrange(0, i as int)),
            acc == decimal_value(s@.subrange(0, i as int)),
            acc <= max,
        decreases n - i,
    {
        let c = st.get_char(i);
        if !('0' <= c && c <= '9') {
            assert(!all_digits(s@));
            return None;
        }
        let d: u64 = (c as u32 - '0' as u32) as u64;
        let ghost pre = s@.subrange(0, i as int + 1);
        assert(pre.drop_last() =~= s@.subrange(0, i as int));
        assert(decimal_value(pre) == acc * 10 + d);
        if d > max || acc > (max - d) / 10 {
            assert(acc * 10 + d > max) by (nonlinear_arith)
                requires d > max || acc > (max - d) / 10, d <= 9, acc >= 0;
            proof {
                if all_digits(s@) {
                    lemma_decimal_prefix(s@, i as int + 1);
                }
            }
            return None;
        }
        assert(acc * 10 + d <= max) by (nonlinear_arith)
            requires d <= max, acc <= (max - d) / 10;
        acc = acc * 10 + d;
        i = i + 1;
        assert(all_digits(s@.subrange(0, i as int)));
    }
    assert(s@.subrange(0, n as int) =~= s@);
    Some(acc)
}


/// Builds the symbol table from a token vector, with one forward cursor.
pub struct Parser {
    symbol_table: SymbolTable,
    pos: usize,
}

impl Parser {
    pub closed spec fn cursor(&self) -> nat {
        self.pos as nat
    }

    /// The declarations filed so far, by name.
    pub closed spec fn table(&self) -> Map<Seq<char>, DeclView> {
        self.symbol_table.view()
    }

    pub closed spec fn wf(&self) -> bool {
        self.symbol_table.wf()
    }

    /// The symbol table.
    pub fn symbol_table(&self) -> (r: &SymbolTable)
        requires
            self.wf(),
        ensures
            r.wf(),
            r.view() == self.table(),
    {
        &self.symbol_table
    }

    /// A parser at the start, with an empty table.
    pub fn new() -> (r: Parser)
        ensures
            r.wf(),
            r.table() == Map::<Seq<char>, DeclView>::empty(),
            r.cursor() == 0,
    {
        Parser { pos: 0, symbol_table: SymbolTable::new() }
    }

    /// The token under the cursor.
    fn peek<'a>(&self, tokens: &'a Vec<CSVToken>) -> (r: Result<&'a CSVToken, ParseError>)
        ensures
            match r {
                Ok(tok) => self.pos < tokens@.len() && *tok == tokens@[self.pos as int],
                Err(e) => self.pos >= tokens@.len() && e == ParseError::UnexpectedEnd,
            },
    {
        if self.pos < tokens.len() {
            Ok(&tokens[self.pos])
        } else {
            Err(ParseError::UnexpectedEnd)
        }
    }

    /// The token under the cursor, moving the cursor past it.
    fn advance<'a>(&mut self, tokens: &'a Vec<CSVToken>) -> (r: Result<&'a CSVToken, ParseError>)
        ensures
            final(self).symbol_table == old(self).symbol_table,
            match r {
                Ok(tok) => old(self).pos < tokens@.len() && *tok == tokens@[old(self).pos as int]
                    && final(self).pos == old(self).pos + 1,
                Err(e) => old(self).pos >= tokens@.len() && e == ParseError::UnexpectedEnd
                    && final(self).pos == old(self).pos,
            },
    {
        if self.pos < tokens.len() {
            self.pos = self.pos + 1;
            Ok(&tokens[self.pos - 1])
        } else {
            Err(ParseError::UnexpectedEnd)
        }
    }

    /// Whether the token under the cursor is a declaration keyword.
    fn peek_and_check_if_type_declaration(&self, tokens: &Vec<CSVToken>) -> (r: Result<bool, ParseError>)
        ensures
            match r {
                Ok(b) => self.pos < tokens@.len() && b == is_declaration_kind(tokens@[self.pos as int].ty),
                Err(e) => self.pos >= tokens@.len() && e == ParseError::UnexpectedEnd,
            },
    {
        let next = self.peek(tokens)?;
        match next.ty {
            CSVTokenType::MsgTy | CSVTokenType::SubTy | CSVTokenType::MsgData
            | CSVTokenType::SubMsgData | CSVTokenType::TlvType | CSVTokenType::TlvData => Ok(true),
            _ => Ok(false),
        }
    }

    /// Whether the token under the cursor is the ellipsis marker.
    fn peek_and_check_if_dotdot(&self, tokens: &Vec<CSVToken>) -> (r: Result<bool, ParseError>)
        ensures
            match r {
                Ok(b) => self.pos < tokens@.len()
                    && b == (tokens@[self.pos as int].ty == CSVTokenType::Dotdotdot),
                Err(e) => self.pos >= tokens@.len() && e == ParseError::UnexpectedEnd,
            },
    {
        let next = self.peek(tokens)?;
        Ok(next.ty == CSVTokenType::Dotdotdot)
    }

    /// Parses a message type header such as `msgtype,init,16`, with an
    /// optional trailing `gossip_queries`.
    fn parse_msg_typ(&mut self, tokens: &Vec<CSVToken>) -> (r: Result<LNMsg, ParseError>)
        requires
            old(self).pos < tokens@.len(),
        ensures
            final(self).symbol_table == old(self).symbol_table,
            match msg_header(tokens_view(tokens@), old(self).pos as nat) {
                Ok((h, n)) => r matches Ok(m) && m@ == h && final(self).pos == old(self).pos + 1 + n,
                Err(e) => r == Err::<LNMsg, ParseError>(e),
            },
    {
        let ghost t = tokens_view(tokens@);
        let tag = self.advance(tokens)?;
        if tag.ty != CSVTokenType::MsgTy {
            return Err(ParseError::UnexpectedToken);
        }
        let msg_name = self.advance(tokens);
        if msg_name.is_err() {
            return Err(ParseError::UnexpectedEnd);
        }
        let msg_name = msg_name.unwrap();
        let msg_type = self.advance(tokens);
        if msg_type.is_err() {
            return Err(ParseError::UnexpectedEnd);
        }
        let msg_type = msg_type.unwrap();
        match msg_type.ty {
            CSVTokenType::Number => {
                let code = match parse_number(&msg_type.val, 0xffff) {
                    Some(c) => c,
                    None => return Err(ParseError::BadNumber),
                };
                let mut msg = LNMsg::new(code as u16, msg_name.val.clone());
                let next = self.peek(tokens)?;
                let gossip = String::from_str("gossip_queries");
                if next.val == gossip {
                    msg.is_gossip_query = true;
                    let _ = self.advance(tokens);
                }
                Ok(msg)
            },
            _ => Err(ParseError::UnexpectedToken),
        }
    }


    /// Parses one data line for `target_msg`, such as
    /// `msgdata,init,gflen,u16,` or `msgdata,init,globalfeatures,byte,gflen`,
    /// and appends its field.
    fn parse_msg_data(&mut self, target_msg: &mut LNMsg, tokens: &Vec<CSVToken>) -> (r: Result<(), ParseError>)
        requires
            old(self).pos < tokens@.len(),
        ensures
            final(self).symbol_table == old(self).symbol_table,
            match data_field(tokens_view(tokens@), old(self).pos as nat, old(target_msg)@.name) {
                Ok((f, x)) => r is Ok && final(self).pos == old(self).pos + 4 + x
                    && final(target_msg)@ == (MsgView { fields: old(target_msg)@.fields.push(f), ..old(target_msg)@ }),
                Err(e) => r == Err::<(), ParseError>(e) && final(target_msg)@ == old(target_msg)@,
            },
    {
        let tag = self.advance(tokens)?;
        if tag.ty != CSVTokenType::MsgData && tag.ty != CSVTokenType::SubMsgData {
            return Err(ParseError::UnexpectedToken);
        }
        let owner = self.advance(tokens)?;
        if owner.val != target_msg.msg_name {
            return Err(ParseError::NameMismatch);
        }
        let name_tok = self.advance(tokens)?;
        let type_tok = self.advance(tokens)?;
        let name = name_tok.val.clone();
        let msg_data = match type_tok.ty {
            CSVTokenType::U16 => LNMsData::Uint16(name),
            CSVTokenType::U32 => LNMsData::Uint32(name),
            CSVTokenType::U64 => LNMsData::Uint64(name),
            CSVTokenType::ChainHash => LNMsData::ChainHash(name, name_tok.val.clone()),
            CSVTokenType::ChannelId => LNMsData::ChannelId(name),
            CSVTokenType::Signature => LNMsData::Signature(name),
            CSVTokenType::ShortChannelId => LNMsData::ShortChannelId(name),
            CSVTokenType::Point => LNMsData::Point(name),
            CSVTokenType::Byte => {
                let at_keyword = self.peek_and_check_if_type_declaration(tokens)?;
                let at_end = self.peek(tokens)?.ty == CSVTokenType::EOF;
                let size = if !at_keyword && !at_end {
                    let len_tok = self.advance(tokens)?;
                    len_tok.val.clone()
                } else {
                    let one = String::from_str("1");
                    proof { reveal_strlit("1"); }
                    assert(one@ =~= seq!['1']);
                    one
                };
                LNMsData::BitfieldStream(name, size)
            },
            CSVTokenType::LiteralString => LNMsData::TLVinit(type_tok.val.clone(), name),
            _ => return Err(ParseError::UnknownType),
        };
        let ghost t = tokens_view(tokens@);
        let ghost p = old(self).pos as nat;
        assert(data_field(t, p, old(target_msg)@.name) matches Ok((f, x)) && f == msg_data@ && self.pos == p + 4 + x);
        target_msg.add_msg_data(msg_data);
        Ok(())
    }

    /// Parses a TLV stream header such as `tlvtype,init_tlvs,networks,1`.
    fn parse_tlv_typ(&mut self, tokens: &Vec<CSVToken>) -> (r: Result<LNTlvRecord, ParseError>)
        requires
            old(self).pos < tokens@.len(),
        ensures
            final(self).symbol_table == old(self).symbol_table,
            match tlv_header(tokens_view(tokens@), old(self).pos as nat) {
                Ok((h, n)) => r matches Ok(rec) && rec@ == h && final(self).pos == old(self).pos + 1 + n,
                Err(e) => r == Err::<LNTlvRecord, ParseError>(e),
            },
    {
        let tag = self.advance(tokens)?;
        if tag.ty != CSVTokenType::TlvType {
            return Err(ParseError::UnexpectedToken);
        }
        let next = self.peek(tokens)?;
        match next.ty {
            CSVTokenType::LiteralString => {
                let stream = self.advance(tokens)?;
                let disc = self.advance(tokens)?;
                let code_tok = self.advance(tokens)?;
                match parse_number(&code_tok.val, 0xffff_ffff_ffff_ffff) {
                    Some(code) => Ok(LNTlvRecord::new(stream.val.clone(), disc.val.clone(), code)),
                    None => Err(ParseError::BadNumber),
                }
            },
            _ => Err(ParseError::UnexpectedToken),
        }
    }

    /// Parses one TLV data line of `record`, such as
    /// `tlvdata,init_tlvs,networks,chains,chain_hash,...`, and appends its entry.
    fn parse_tlv_data(&mut self, record: &mut LNTlvRecord, tokens: &Vec<CSVToken>) -> (r: Result<(), ParseError>)
        requires
            old(self).pos < tokens@.len(),
        ensures
            final(self).symbol_table == old(self).symbol_table,
            match tlv_entry(tokens_view(tokens@), old(self).pos as nat, old(record)@.stream, old(record)@.disc_name) {
                Ok((e, x)) => r is Ok && final(self).pos == old(self).pos + 5 + x
                    && final(record)@ == (TlvRecordView { entries: old(record)@.entries.push(e), ..old(record)@ }),
                Err(e) => r == Err::<(), ParseError>(e) && final(record)@ == old(record)@,
            },
    {
        let tag = self.advance(tokens)?;
        if tag.ty != CSVTokenType::TlvData {
            return Err(ParseError::UnexpectedToken);
        }
        let stream = self.advance(tokens)?;
        if stream.val != record.stream_name {
            return Err(ParseError::NameMismatch);
        }
        let disc = self.advance(tokens)?;
        if disc.val != record.disc_name {
            return Err(ParseError::NameMismatch);
        }
        let name_tok = self.advance(tokens)?;
        let type_tok = self.advance(tokens)?;
        if self.peek_and_check_if_dotdot(tokens)? {
            let _ = self.advance(tokens);
        }
        record.add_entry(LNTlvEntry::new(name_tok.val.clone(), type_tok.val.clone()));
        Ok(())
    }

    /// Parses a message type declaration: its header and the data lines
    /// that follow it, then files it in the table.
    fn parse_msg(&mut self, tokens: &Vec<CSVToken>) -> (r: Result<(), ParseError>)
        requires
            old(self).pos < tokens@.len(),
            old(self).wf(),
        ensures
            final(self).wf(),
            match msg_decl(tokens_view(tokens@), old(self).pos as nat) {
                Ok((m, n)) => r is Ok && final(self).pos == old(self).pos + 1 + n
                    && final(self).table() == old(self).table().insert(m.name, DeclView::Msg(m)),
                Err(e) => r == Err::<(), ParseError>(e) && final(self).table() == old(self).table(),
            },
    {
        let ghost t = tokens_view(tokens@);
        let mut msg_typ = self.parse_msg_typ(tokens)?;
        let ghost hdr = msg_typ@;
        let ghost start = self.pos as nat;
        let ghost hn = msg_header(t, old(self).pos as nat)->Ok_0.1;
        assert(seq![] + data_fields(t, start, hdr.name, CSVTokenType::MsgData)->Ok_0.0
            =~= data_fields(t, start, hdr.name, CSVTokenType::MsgData)->Ok_0.0);
        loop
            invariant
                t == tokens_view(tokens@),
                self.symbol_table == old(self).symbol_table,
                self.wf(),
                start <= self.pos,
                msg_header(t, old(self).pos as nat) == Ok::<_, ParseError>((hdr, hn)),
                start == old(self).pos + 1 + hn,
                msg_typ@ == (MsgView { fields: msg_typ@.fields, ..hdr }),
                data_fields(t, start, hdr.name, CSVTokenType::MsgData) == glue(
                    msg_typ@.fields,
                    (self.pos - start) as nat,
                    data_fields(t, self.pos as nat, hdr.name, CSVTokenType::MsgData),
                ),
            ensures
                data_fields(t, self.pos as nat, hdr.name, CSVTokenType::MsgData) == Ok::<(Seq<FieldView>, nat), ParseError>((seq![], 0)),
            decreases tokens@.len() - self.pos,
        {
            let next = self.peek(tokens);
            if next.is_err() {
                assert(data_fields(t, self.pos as nat, hdr.name, CSVTokenType::MsgData) == Err::<(Seq<FieldView>, nat), ParseError>(ParseError::UnexpectedEnd));
                return Err(ParseError::UnexpectedEnd);
            }
            let next = next.unwrap();
            assert(t[self.pos as int] == tokens@[self.pos as int]@);
            if next.ty != CSVTokenType::MsgData {
                break;
            }
            let ghost acc = msg_typ@.fields;
            let ghost j = self.pos as nat;
            let step = self.parse_msg_data(&mut msg_typ, tokens);
            if let Err(e) = step {
                return Err(e);
            }
            proof {
                let (f, x) = data_field(t, j, hdr.name)->Ok_0;
                lemma_glue(acc, (j - start) as nat, f, 4 + x, data_fields(t, self.pos as nat, hdr.name, CSVTokenType::MsgData));
            }
        }
        assert(msg_typ@.fields + seq![] =~= msg_typ@.fields);
        proof {
            let c = (self.pos - start) as nat;
            assert(data_fields(t, start, hdr.name, CSVTokenType::MsgData)
                == Ok::<_, ParseError>((msg_typ@.fields, c)));
            assert(msg_decl(t, old(self).pos as nat) == Ok::<_, ParseError>((msg_typ@, hn + c)));
        }
        let ghost mv = msg_typ@;
        self.symbol_table.insert(LNMsgType::Msg(msg_typ));
        assert(self.table() == old(self).table().insert(mv.name, DeclView::Msg(mv)));
        Ok(())
    }

    /// Parses a TLV stream declaration: its header and the data lines that
    /// follow it, then files it in the table.
    fn parse_tlv(&mut self, tokens: &Vec<CSVToken>) -> (r: Result<(), ParseError>)
        requires
            old(self).pos < tokens@.len(),
            old(self).wf(),
        ensures
            final(self).wf(),
            match tlv_decl(tokens_view(tokens@), old(self).pos as nat) {
                Ok((rec, n)) => r is Ok && final(self).pos == old(self).pos + 1 + n
                    && final(self).table() == old(self).table().insert(rec.stream, DeclView::Tlv(rec)),
                Err(e) => r == Err::<(), ParseError>(e) && final(self).table() == old(self).table(),
            },
    {
        let ghost t = tokens_view(tokens@);
        let mut tlv_typ = self.parse_tlv_typ(tokens)?;
        let ghost hdr = tlv_typ@;
        let ghost start = self.pos as nat;
        let ghost hn = tlv_header(t, old(self).pos as nat)->Ok_0.1;
        assert(seq![] + tlv_entries(t, start, hdr.stream, hdr.disc_name)->Ok_0.0
            =~= tlv_entries(t, start, hdr.stream, hdr.disc_name)->Ok_0.0);
        loop
            invariant
                t == tokens_view(tokens@),
                self.symbol_table == old(self).symbol_table,
                self.wf(),
                start <= self.pos,
                tlv_header(t, old(self).pos as nat) == Ok::<_, ParseError>((hdr, hn)),
                start == old(self).pos + 1 + hn,
                tlv_typ@ == (TlvRecordView { entries: tlv_typ@.entries, ..hdr }),
                tlv_entries(t, start, hdr.stream, hdr.disc_name) == glue(
                    tlv_typ@.entries,
                    (self.pos - start) as nat,
                    tlv_entries(t, self.pos as nat, hdr.stream, hdr.disc_name),
                ),
            ensures
                tlv_entries(t, self.pos as nat, hdr.stream, hdr.disc_name) == Ok::<(Seq<TlvEntryView>, nat), ParseError>((seq![], 0)),
            decreases tokens@.len() - self.pos,
        {
            let next = self.peek(tokens);
            if next.is_err() {
                assert(tlv_entries(t, self.pos as nat, hdr.stream, hdr.disc_name) == Err::<(Seq<TlvEntryView>, nat), ParseError>(ParseError::UnexpectedEnd));
                return Err(ParseError::UnexpectedEnd);
            }
            let next = next.unwrap();
            assert(t[self.pos as int] == tokens@[self.pos as int]@);
            if next.ty != CSVTokenType::TlvData {
                break;
            }
            let ghost acc = tlv_typ@.entries;
            let ghost j = self.pos as nat;
            let step = self.parse_tlv_data(&mut tlv_typ, tokens);
            if let Err(e) = step {
                return Err(e);
            }
            proof {
                let (e, x) = tlv_entry(t, j, hdr.stream, hdr.disc_name)->Ok_0;
                lemma_glue(acc, (j - start) as nat, e, 5 + x, tlv_entries(t, self.pos as nat, hdr.stream, hdr.disc_name));
            }
        }
        assert(tlv_typ@.entries + seq![] =~= tlv_typ@.entries);
        proof {
            let c = (self.pos - start) as nat;
            assert(tlv_entries(t, start, hdr.stream, hdr.disc_name)
                == Ok::<_, ParseError>((tlv_typ@.entries, c)));
            assert(tlv_decl(t, old(self).pos as nat) == Ok::<_, ParseError>((tlv_typ@, hn + c)));
        }
        let ghost rv = tlv_typ@;
        self.symbol_table.insert(LNMsgType::Tlv(tlv_typ));
        assert(self.table() == old(self).table().insert(rv.stream, DeclView::Tlv(rv)));
        Ok(())
    }

    /// Reads the name of a subtype.
    fn parse_subtype_ty(&mut self, tokens: &Vec<CSVToken>) -> (r: Result<LNSubType, ParseError>)
        ensures
            final(self).symbol_table == old(self).symbol_table,
            match r {
                Ok(st) => old(self).pos < tokens@.len() && final(self).pos == old(self).pos + 1
                    && st@ == (SubTypeView { name: tokens@[old(self).pos as int].val@, fields: seq![] }),
                Err(e) => old(self).pos >= tokens@.len() && e == ParseError::UnexpectedEnd,
            },
    {
        let subtype_name = self.advance(tokens)?;
        Ok(LNSubType::new(subtype_name.val.clone()))
    }

    /// Parses a subtype declaration: its header and the data lines that
    /// follow it, read with the message data grammar.
    fn parse_subtype(&mut self, tokens: &Vec<CSVToken>) -> (r: Result<LNSubType, ParseError>)
        requires
            old(self).pos < tokens@.len(),
        ensures
            final(self).symbol_table == old(self).symbol_table,
            match subtype_decl(tokens_view(tokens@), old(self).pos as nat) {
                Ok((sv, n)) => r matches Ok(st) && st@ == sv && final(self).pos == old(self).pos + 1 + n,
                Err(e) => r == Err::<LNSubType, ParseError>(e),
            },
    {
        let ghost t = tokens_view(tokens@);
        let tag = self.advance(tokens)?;
        if tag.ty != CSVTokenType::SubTy {
            return Err(ParseError::UnexpectedToken);
        }
        let mut typ = self.parse_subtype_ty(tokens)?;
        let mut holder = LNMsg::new(0, typ.ty.clone());
        let ghost hdr = holder@;
        let ghost start = self.pos as nat;
        assert(seq![] + data_fields(t, start, hdr.name, CSVTokenType::SubMsgData)->Ok_0.0
            =~= data_fields(t, start, hdr.name, CSVTokenType::SubMsgData)->Ok_0.0);
        loop
            invariant
                t == tokens_view(tokens@),
                self.symbol_table == old(self).symbol_table,
                start <= self.pos,
                holder@.name == hdr.name,
                old(self).pos + 1 < t.len(),
                t[old(self).pos as int].ty == CSVTokenType::SubTy,
                hdr.name == t[old(self).pos + 1].text,
                start == old(self).pos + 2,
                typ@.name == hdr.name,
                data_fields(t, start, hdr.name, CSVTokenType::SubMsgData) == glue(
                    holder@.fields,
                    (self.pos - start) as nat,
                    data_fields(t, self.pos as nat, hdr.name, CSVTokenType::SubMsgData),
                ),
            ensures
                data_fields(t, self.pos as nat, hdr.name, CSVTokenType::SubMsgData) == Ok::<(Seq<FieldView>, nat), ParseError>((seq![], 0)),
            decreases tokens@.len() - self.pos,
        {
            let next = self.peek(tokens);
            if next.is_err() {
                assert(data_fields(t, self.pos as nat, hdr.name, CSVTokenType::SubMsgData) == Err::<(Seq<FieldView>, nat), ParseError>(ParseError::UnexpectedEnd));
                return Err(ParseError::UnexpectedEnd);
            }
            let next = next.unwrap();
            assert(t[self.pos as int] == tokens@[self.pos as int]@);
            if next.ty != CSVTokenType::SubMsgData {
                break;
            }
            let ghost acc = holder@.fields;
            let ghost j = self.pos as nat;
            let step = self.parse_msg_data(&mut holder, tokens);
            if let Err(e) = step {
                return Err(e);
            }
            proof {
                let (f, x) = data_field(t, j, hdr.name)->Ok_0;
                lemma_glue(acc, (j - start) as nat, f, 4 + x, data_fields(t, self.pos as nat, hdr.name, CSVTokenType::SubMsgData));
            }
        }
        assert(holder@.fields + seq![] =~= holder@.fields);
        typ.ty_data = holder.msg_data;
        proof {
            let c = (self.pos - start) as nat;
            assert(data_fields(t, start, hdr.name, CSVTokenType::SubMsgData)
                == Ok::<_, ParseError>((holder@.fields, c)));
            assert(typ@ == (SubTypeView { name: hdr.name, fields: holder@.fields }));
        }
        Ok(typ)
    }

    /// Parses declarations from the cursor up to the end-of-stream token.
    fn parse_decls(&mut self, tokens: &Vec<CSVToken>) -> (r: Result<(), ParseError>)
        requires
            old(self).wf(),
        ensures
            final(self).wf(),
            match parse_decls(tokens_view(tokens@), old(self).pos as nat, old(self).table()) {
                Ok(m) => r is Ok && final(self).table() == m,
                Err(e) => r == Err::<(), ParseError>(e),
            },
    {
        let ghost t = tokens_view(tokens@);
        loop
            invariant
                t == tokens_view(tokens@),
                self.wf(),
                parse_decls(t, self.pos as nat, self.table())
                    == parse_decls(t, old(self).pos as nat, old(self).table()),
            decreases tokens@.len() - self.pos,
        {
            let next = self.peek(tokens)?;
            match next.ty {
                CSVTokenType::EOF => return Ok(()),
                CSVTokenType::MsgTy => self.parse_msg(tokens)?,
                CSVTokenType::SubTy => {
                    let _ = self.parse_subtype(tokens)?;
                },
                CSVTokenType::TlvType => self.parse_tlv(tokens)?,
                _ => return Err(ParseError::UnexpectedToken),
            }
            if self.pos >= tokens.len() {
                return Err(ParseError::UnexpectedEnd);
            }
        }
    }

    /// Builds a fresh symbol table from `tokens`, which end with the
    /// end-of-stream token. On an error the table is left empty.
    pub fn parse(&mut self, tokens: &Vec<CSVToken>) -> (r: Result<(), ParseError>)
        ensures
            final(self).wf(),
            match parse_tokens(tokens_view(tokens@)) {
                Ok(m) => r is Ok && final(self).table() == m,
                Err(e) => r == Err::<(), ParseError>(e)
                    && final(self).table() == Map::<Seq<char>, DeclView>::empty(),
            },
    {
        self.symbol_table = SymbolTable::new();
        self.pos = 0;
        let r = self.parse_decls(tokens);
        if r.is_err() {
            self.symbol_table = SymbolTable::new();
        }
        r
    }
}

} // verus!
