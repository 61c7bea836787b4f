use frontend_csv::{
    CSVToken, CSVTokenType, LNMsData, LNMsgType, LNTlvEntry, ParseError, Parser, Scanner,
};

fn tokens_of(contents: &str) -> Vec<CSVToken> {
    let char_vec: Vec<char> = contents.chars().collect();
    Scanner::new().scan(&char_vec).unwrap()
}

fn parse_str(contents: &str) -> (Parser, Result<(), ParseError>) {
    let tokens = tokens_of(contents);
    let mut parser = Parser::new();
    let r = parser.parse(&tokens);
    (parser, r)
}

fn tok(ty: CSVTokenType, val: &str) -> CSVToken {
    CSVToken { ty, val: val.to_string() }
}

#[test]
fn parse_one_message_with_one_field() {
    let (parser, r) = parse_str("msgtype,init,16\nmsgdata,init,gflen,u16,\n");
    assert_eq!(r, Ok(()));
    let table = parser.symbol_table();
    assert_eq!(table.len(), 1);
    match table.get(&"init".to_string()) {
        Some(LNMsgType::Msg(m)) => {
            assert_eq!(m.msg_type, 16);
            assert_eq!(m.msg_name, "init");
            assert!(!m.is_gossip_query);
            assert_eq!(m.msg_data, vec![LNMsData::Uint16("gflen".to_string())]);
        },
        other => panic!("unexpected entry {:?}", other),
    }
}

#[test]
fn fields_keep_declaration_order() {
    let src = "msgtype,m,1\nmsgdata,m,a,u32,\nmsgdata,m,b,point,\nmsgdata,m,c,u64,\nmsgdata,m,d,channel_id,\n";
    let (parser, r) = parse_str(src);
    assert_eq!(r, Ok(()));
    match parser.symbol_table().get(&"m".to_string()) {
        Some(LNMsgType::Msg(m)) => assert_eq!(
            m.msg_data,
            vec![
                LNMsData::Uint32("a".to_string()),
                LNMsData::Point("b".to_string()),
                LNMsData::Uint64("c".to_string()),
                LNMsData::ChannelId("d".to_string()),
            ]
        ),
        other => panic!("unexpected entry {:?}", other),
    }
}

#[test]
fn name_mismatch_is_rejected() {
    let (parser, r) = parse_str("msgtype,init,16\nmsgdata,other,gflen,u16,\n");
    assert_eq!(r, Err(ParseError::NameMismatch));
    assert_eq!(parser.symbol_table().len(), 0);
}

#[test]
fn byte_field_defaults_to_length_one() {
    let (parser, r) = parse_str("msgtype,m,1\nmsgdata,m,flag,byte,\nmsgdata,m,n,u16,\n");
    assert_eq!(r, Ok(()));
    match parser.symbol_table().get(&"m".to_string()) {
        Some(LNMsgType::Msg(m)) => {
            assert_eq!(m.msg_data[0], LNMsData::BitfieldStream("flag".to_string(), "1".to_string()));
            assert_eq!(m.msg_data[1], LNMsData::Uint16("n".to_string()));
        },
        other => panic!("unexpected entry {:?}", other),
    }
}

#[test]
fn byte_field_takes_named_length() {
    let src = "msgtype,init,16\nmsgdata,init,gflen,u16,\nmsgdata,init,globalfeatures,byte,gflen\n";
    let (parser, r) = parse_str(src);
    assert_eq!(r, Ok(()));
    match parser.symbol_table().get(&"init".to_string()) {
        Some(LNMsgType::Msg(m)) => assert_eq!(
            m.msg_data[1],
            LNMsData::BitfieldStream("globalfeatures".to_string(), "gflen".to_string())
        ),
        other => panic!("unexpected entry {:?}", other),
    }
}

#[test]
fn two_fresh_parsers_agree() {
    let src = "msgtype,init,16\nmsgdata,init,gflen,u16,\ntlvtype,init_tlvs,networks,1\ntlvdata,init_tlvs,networks,chains,chain_hash,...\n";
    let tokens = tokens_of(src);
    let mut a = Parser::new();
    let mut b = Parser::new();
    assert_eq!(a.parse(&tokens), Ok(()));
    assert_eq!(b.parse(&tokens), Ok(()));
    assert_eq!(a.symbol_table(), b.symbol_table());
    assert_eq!(a.symbol_table().len(), 2);
}

#[test]
fn tlv_stream_with_ellipsis() {
    let src = "tlvtype,init_tlvs,networks,1\ntlvdata,init_tlvs,networks,chains,chain_hash,...\ntlvdata,init_tlvs,networks,extra,u16\n";
    let (parser, r) = parse_str(src);
    assert_eq!(r, Ok(()));
    match parser.symbol_table().get(&"init_tlvs".to_string()) {
        Some(LNMsgType::Tlv(t)) => {
            assert_eq!(t.disc_name, "networks");
            assert_eq!(t.type_id, 1);
            assert_eq!(
                t.entries,
                vec![
                    LNTlvEntry { entry_name: "chains".to_string(), entry_type: "chain_hash".to_string() },
                    LNTlvEntry { entry_name: "extra".to_string(), entry_type: "u16".to_string() },
                ]
            );
        },
        other => panic!("unexpected entry {:?}", other),
    }
}

#[test]
fn tlv_discriminant_mismatch_is_rejected() {
    let (_, r) = parse_str("tlvtype,s,n,1\ntlvdata,s,other,f,u16\n");
    assert_eq!(r, Err(ParseError::NameMismatch));
}

#[test]
fn gossip_queries_flag_is_read() {
    let (parser, r) = parse_str("msgtype,query,261,gossip_queries\nmsgdata,query,chain_hash,chain_hash,\n");
    assert_eq!(r, Ok(()));
    match parser.symbol_table().get(&"query".to_string()) {
        Some(LNMsgType::Msg(m)) => {
            assert!(m.is_gossip_query);
            assert_eq!(m.msg_type, 261);
            assert_eq!(
                m.msg_data,
                vec![LNMsData::ChainHash("chain_hash".to_string(), "chain_hash".to_string())]
            );
        },
        other => panic!("unexpected entry {:?}", other),
    }
}

#[test]
fn stream_reference_field() {
    let (parser, r) = parse_str("msgtype,init,16\nmsgdata,init,tlvs,init_tlvs,\n");
    assert_eq!(r, Ok(()));
    match parser.symbol_table().get(&"init".to_string()) {
        Some(LNMsgType::Msg(m)) => assert_eq!(
            m.msg_data,
            vec![LNMsData::TLVinit("init_tlvs".to_string(), "tlvs".to_string())]
        ),
        other => panic!("unexpected entry {:?}", other),
    }
}

#[test]
fn subtype_is_not_filed() {
    let (parser, r) = parse_str("subtype,sub\nsubtypedata,sub,a,u16,\nsubtypedata,sub,b,byte,\nmsgtype,m,2\n");
    assert_eq!(r, Ok(()));
    assert_eq!(parser.symbol_table().len(), 1);
    assert!(parser.symbol_table().get(&"sub".to_string()).is_none());
}

#[test]
fn later_declaration_replaces_earlier() {
    let (parser, r) = parse_str("msgtype,m,1\nmsgdata,m,a,u16,\nmsgtype,m,2\n");
    assert_eq!(r, Ok(()));
    assert_eq!(parser.symbol_table().len(), 1);
    match parser.symbol_table().get(&"m".to_string()) {
        Some(LNMsgType::Msg(m)) => {
            assert_eq!(m.msg_type, 2);
            assert!(m.msg_data.is_empty());
        },
        other => panic!("unexpected entry {:?}", other),
    }
}

#[test]
fn code_out_of_range_is_rejected() {
    let (_, r) = parse_str("msgtype,m,70000\n");
    assert_eq!(r, Err(ParseError::BadNumber));
    let (_, r) = parse_str("tlvtype,s,n,99999999999999999999\n");
    assert_eq!(r, Err(ParseError::BadNumber));
}

#[test]
fn largest_codes_are_accepted() {
    let (parser, r) = parse_str("msgtype,m,65535\ntlvtype,s,n,18446744073709551615\n");
    assert_eq!(r, Ok(()));
    match parser.symbol_table().get(&"s".to_string()) {
        Some(LNMsgType::Tlv(t)) => assert_eq!(t.type_id, u64::MAX),
        other => panic!("unexpected entry {:?}", other),
    }
    match parser.symbol_table().get(&"m".to_string()) {
        Some(LNMsgType::Msg(m)) => assert_eq!(m.msg_type, 65535),
        other => panic!("unexpected entry {:?}", other),
    }
}

#[test]
fn unknown_field_type_is_rejected() {
    let (_, r) = parse_str("msgtype,m,1\nmsgdata,m,h,sha256,\n");
    assert_eq!(r, Err(ParseError::UnknownType));
}

#[test]
fn data_line_at_top_level_is_rejected() {
    let (_, r) = parse_str("msgdata,m,a,u16,\n");
    assert_eq!(r, Err(ParseError::UnexpectedToken));
}

#[test]
fn code_must_be_a_number() {
    let (_, r) = parse_str("msgtype,m,x\n");
    assert_eq!(r, Err(ParseError::UnexpectedToken));
}

#[test]
fn tokens_without_end_marker_are_rejected() {
    let tokens = vec![tok(CSVTokenType::MsgTy, "msgtype"), tok(CSVTokenType::LiteralString, "m")];
    let mut parser = Parser::new();
    assert_eq!(parser.parse(&tokens), Err(ParseError::UnexpectedEnd));
}

#[test]
fn number_token_with_non_digits_is_rejected() {
    let tokens = vec![
        tok(CSVTokenType::MsgTy, "msgtype"),
        tok(CSVTokenType::LiteralString, "m"),
        tok(CSVTokenType::Number, "1a"),
        tok(CSVTokenType::EOF, "EOF"),
    ];
    let mut parser = Parser::new();
    assert_eq!(parser.parse(&tokens), Err(ParseError::BadNumber));
}

#[test]
fn failed_parse_leaves_empty_table() {
    let good = tokens_of("msgtype,m,1\n");
    let bad = tokens_of("msgtype,m,1\nmsgdata,x,a,u16\n");
    let mut parser = Parser::new();
    assert_eq!(parser.parse(&good), Ok(()));
    assert_eq!(parser.symbol_table().len(), 1);
    assert_eq!(parser.parse(&bad), Err(ParseError::NameMismatch));
    assert_eq!(parser.symbol_table().len(), 0);
}

#[test]
fn empty_input_gives_empty_table() {
    let (parser, r) = parse_str("");
    assert_eq!(r, Ok(()));
    assert_eq!(parser.symbol_table().len(), 0);
}

#[test]
fn byte_field_before_end_of_stream_defaults_to_length_one() {
    let (parser, r) = parse_str("msgtype,m,1\nmsgdata,m,flag,byte,\n");
    assert_eq!(r, Ok(()));
    match parser.symbol_table().get(&"m".to_string()) {
        Some(LNMsgType::Msg(m)) => assert_eq!(
            m.msg_data,
            vec![LNMsData::BitfieldStream("flag".to_string(), "1".to_string())]
        ),
        other => panic!("unexpected entry {:?}", other),
    }
}

#[test]
fn byte_field_before_subtype_line_defaults_to_length_one() {
    let (parser, r) = parse_str("subtype,s\nsubtypedata,s,a,byte,\nsubtypedata,s,b,u16,\nmsgtype,m,3\n");
    assert_eq!(r, Ok(()));
    assert_eq!(parser.symbol_table().len(), 1);
}

#[test]
fn entries_list_every_declaration_once() {
    let src = "msgtype,a,1\ntlvtype,b,n,2\nmsgtype,a,3\nmsgtype,c,4\n";
    let (parser, r) = parse_str(src);
    assert_eq!(r, Ok(()));
    let mut names: Vec<String> = parser.symbol_table().entries().iter().map(|d| d.name().clone()).collect();
    names.sort();
    assert_eq!(names, vec!["a".to_string(), "b".to_string(), "c".to_string()]);
}
