//! Declarations: message types, their data fields, TLV records and subtypes.
use vstd::prelude::*;

verus! {

/// One data field of a message, in wire order.
#[derive(Clone, PartialEq, Debug)]
pub enum LNMsData {
    /// A 16-bit integer field, by name.
    Uint16(String),
    /// A 32-bit integer field, by name.
    Uint32(String),
    /// A 64-bit integer field, by name.
    Uint64(String),
    /// A chain hash: name and value.
    ChainHash(String, String),
    ChannelId(String),
    Signature(String),
    ShortChannelId(String),
    Point(String),
    /// A byte stream: name, and the name of its length field (or "1").
    BitfieldStream(String, String),
    /// An embedded TLV stream: stream name and field name.
    TLVinit(String, String),
}

/// The content of a data field.
pub ghost enum FieldView {
    Uint16(Seq<char>),
    Uint32(Seq<char>),
    Uint64(Seq<char>),
    ChainHash(Seq<char>, Seq<char>),
    ChannelId(Seq<char>),
    Signature(Seq<char>),
    ShortChannelId(Seq<char>),
    Point(Seq<char>),
    BitfieldStream(Seq<char>, Seq<char>),
    TLVinit(Seq<char>, Seq<char>),
}

impl View for LNMsData {
    type V = FieldView;

    open spec fn view(&self) -> FieldView {
        match self {
            LNMsData::Uint16(a) => FieldView::Uint16(a@),
            LNMsData::Uint32(a) => FieldView::Uint32(a@),
            LNMsData::Uint64(a) => FieldView::Uint64(a@),
            LNMsData::ChainHash(a, b) => FieldView::ChainHash(a@, b@),
            LNMsData::ChannelId(a) => FieldView::ChannelId(a@),
            LNMsData::Signature(a) => FieldView::Signature(a@),
            LNMsData::ShortChannelId(a) => FieldView::ShortChannelId(a@),
            LNMsData::Point(a) => FieldView::Point(a@),
            LNMsData::BitfieldStream(a, b) => FieldView::BitfieldStream(a@, b@),
            LNMsData::TLVinit(a, b) => FieldView::TLVinit(a@, b@),
        }
    }
}

pub open spec fn fields_view(v: Seq<LNMsData>) -> Seq<FieldView> {
    v.map_values(|d: LNMsData| d@)
}

/// A message type: name, numeric code, data fields and the gossip-query flag.
#[derive(Clone, PartialEq, Debug)]
pub struct LNMsg {
    pub msg_type: u16,
    pub msg_name: String,
    pub msg_data: Vec<LNMsData>,
    pub is_gossip_query: bool,
}

pub ghost struct MsgView {
    pub code: u16,
    pub name: Seq<char>,
    pub fields: Seq<FieldView>,
    pub gossip: bool,
}

impl View for LNMsg {
    type V = MsgView;

    open spec fn view(&self) -> MsgView {
        MsgView {
            code: self.msg_type,
            name: self.msg_name@,
            fields: fields_view(self.msg_data@),
            gossip: self.is_gossip_query,
        }
    }
}

impl LNMsg {
    /// A message with no fields, not flagged as a gossip query.
    pub fn new(msg_type: u16, msg_name: String) -> (r: LNMsg)
        ensures
            r@ == (MsgView { code: msg_type, name: msg_name@, fields: seq![], gossip: false }),
    {
        let r = LNMsg { msg_type, msg_name, msg_data: Vec::new(), is_gossip_query: false };
        assert(r@.fields =~= seq![]);
        r
    }

    /// Appends a data field after the existing ones.
    pub fn add_msg_data(&mut self, data: LNMsData)
        ensures
            final(self)@ == (MsgView { fields: old(self)@.fields.push(data@), ..old(self)@ }),
    {
        self.msg_data.push(data);
        assert(fields_view(self.msg_data@) =~= fields_view(old(self).msg_data@).push(data@));
    }
}

/// One entry of a TLV record: field name and declared type name.
#[derive(Clone, PartialEq, Debug)]
pub struct LNTlvEntry {
    pub entry_name: String,
    pub entry_type: String,
}

pub ghost struct TlvEntryView {
    pub name: Seq<char>,
    pub ty: Seq<char>,
}

impl View for LNTlvEntry {
    type V = TlvEntryView;

    open spec fn view(&self) -> TlvEntryView {
        TlvEntryView { name: self.entry_name@, ty: self.entry_type@ }
    }
}

impl LNTlvEntry {
    pub fn new(entry_name: String, entry_type: String) -> (r: LNTlvEntry)
        ensures
            r@ == (TlvEntryView { name: entry_name@, ty: entry_type@ }),
    {
        LNTlvEntry { entry_name, entry_type }
    }
}

pub open spec fn entries_view(v: Seq<LNTlvEntry>) -> Seq<TlvEntryView> {
    v.map_values(|e: LNTlvEntry| e@)
}

/// A TLV record: stream name, discriminant name, numeric code and entries.
#[derive(Clone, PartialEq, Debug)]
pub struct LNTlvRecord {
    pub stream_name: String,
    /// The name of the discriminant field.
    pub disc_name: String,
    pub type_id: u64,
    pub entries: Vec<LNTlvEntry>,
}

pub ghost struct TlvRecordView {
    pub stream: Seq<char>,
    pub disc_name: Seq<char>,
    pub code: u64,
    pub entries: Seq<TlvEntryView>,
}

impl View for LNTlvRecord {
    type V = TlvRecordView;

    open spec fn view(&self) -> TlvRecordView {
        TlvRecordView {
            stream: self.stream_name@,
            disc_name: self.disc_name@,
            code: self.type_id,
            entries: entries_view(self.entries@),
        }
    }
}

impl LNTlvRecord {
    /// A record with no entries.
    pub fn new(stream_name: String, disc_name: String, type_id: u64) -> (r: LNTlvRecord)
        ensures
            r@ == (TlvRecordView {
                stream: stream_name@,
                disc_name: disc_name@,
                code: type_id,
                entries: seq![],
            }),
    {
        let r = LNTlvRecord { stream_name, disc_name, type_id, entries: Vec::new() };
        assert(r@.entries =~= seq![]);
        r
    }

    /// Appends an entry after the existing ones; equal names are allowed.
    pub fn add_entry(&mut self, entry: LNTlvEntry)
        ensures
            final(self)@ == (TlvRecordView {
                entries: old(self)@.entries.push(entry@),
                ..old(self)@
            }),
    {
        self.entries.push(entry);
        assert(entries_view(self.entries@) =~= entries_view(old(self).entries@).push(entry@));
    }
}

/// A subtype: a name and the data fields declared for it.
#[derive(Clone, PartialEq, Debug)]
pub struct LNSubType {
    pub ty: String,
    pub ty_data: Vec<LNMsData>,
}

pub ghost struct SubTypeView {
    pub name: Seq<char>,
    pub fields: Seq<FieldView>,
}

impl View for LNSubType {
    type V = SubTypeView;

    open spec fn view(&self) -> SubTypeView {
        SubTypeView { name: self.ty@, fields: fields_view(self.ty_data@) }
    }
}

impl LNSubType {
    pub fn new(ty: String) -> (r: LNSubType)
        ensures
            r@ == (SubTypeView { name: ty@, fields: seq![] }),
    {
        let r = LNSubType { ty, ty_data: Vec::new() };
        assert(r@.fields =~= seq![]);
        r
    }
}

/// An entry of the symbol table.
#[derive(Clone, PartialEq, Debug)]
pub enum LNMsgType {
    Msg(LNMsg),
    Tlv(LNTlvRecord),
}

pub ghost enum DeclView {
    Msg(MsgView),
    Tlv(TlvRecordView),
}

impl View for LNMsgType {
    type V = DeclView;

    open spec fn view(&self) -> DeclView {
        match self {
            LNMsgType::Msg(m) => DeclView::Msg(m@),
            LNMsgType::Tlv(t) => DeclView::Tlv(t@),
        }
    }
}

/// The name under which a declaration is filed.
pub open spec fn decl_name(d: DeclView) -> Seq<char> {
    match d {
        DeclView::Msg(m) => m.name,
        DeclView::Tlv(t) => t.stream,
    }
}

impl LNMsgType {
    /// The name under which this declaration is filed.
    pub fn name(&self) -> (r: &String)
        ensures
            r@ == decl_name(self@),
    {
        match self {
            LNMsgType::Msg(m) => &m.msg_name,
            LNMsgType::Tlv(t) => &t.stream_name,
        }
    }
}

} // verus!
