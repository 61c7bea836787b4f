//! Tokens handed from the scanner to the parser.
use vstd::prelude::*;

verus! {

/// The kinds of token: the six declaration keywords, the reserved type
/// names, free text, unsigned decimal literals and the end-of-stream marker.
#[derive(Clone, Copy, PartialEq, Eq, Debug, Structural)]
pub enum CSVTokenType {
    MsgTy,
    SubTy,
    MsgData,
    SubMsgData,
    TlvType,
    TlvData,
    ShortChannelId,
    Sha256,
    U16,
    U32,
    U64,
    ChannelId,
    Signature,
    Point,
    ChainHash,
    Byte,
    BigSize,
    LiteralString,
    Number,
    Tu32,
    Tu64,
    Tlvs,
    Dotdotdot,
    Data,
    EOF,
}

/// A token: its kind and the text it was read from.
#[derive(Clone, PartialEq, Debug)]
pub struct CSVToken {
    pub ty: CSVTokenType,
    pub val: String,
}

/// The mathematical content of a token.
pub ghost struct TokenView {
    pub ty: CSVTokenType,
    pub text: Seq<char>,
}

impl View for CSVToken {
    type V = TokenView;

    open spec fn view(&self) -> TokenView {
        TokenView { ty: self.ty, text: self.val@ }
    }
}

/// The contents of a token vector.
pub open spec fn tokens_view(v: Seq<CSVToken>) -> Seq<TokenView> {
    v.map_values(|t: CSVToken| t@)
}

/// Kinds that open a declaration line.
pub open spec fn is_declaration_kind(k: CSVTokenType) -> bool {
    matches!(k, CSVTokenType::MsgTy | CSVTokenType::SubTy | CSVTokenType::MsgData
        | CSVTokenType::SubMsgData | CSVTokenType::TlvType | CSVTokenType::TlvData)
}

} // verus!
