use frontend_csv::{CSVToken, CSVTokenType, ScanError, Scanner};

fn scan_str(contents: &str) -> Result<Vec<CSVToken>, ScanError> {
    let char_vec: Vec<char> = contents.chars().collect();
    let scanner = Scanner::new();
    scanner.scan(&char_vec)
}

#[test]
fn test_one_line() {
    let contents = "msgtype,init,16\n";
    let char_vec: Vec<char> = contents.chars().collect();
    let scanner = Scanner::new();
    let result = scanner.scan(&char_vec).unwrap();
    assert!(result.len() > 0);
    let expected = vec![
        CSVToken { ty: CSVTokenType::MsgTy, val: "msgtype".to_string() },
        CSVToken { ty: CSVTokenType::LiteralString, val: "init".to_string() },
        CSVToken { ty: CSVTokenType::Number, val: "16".to_string() },
    ];
    for c in 0..expected.len() - 1 {
        assert!(result[c].val == expected[c].val);
        assert_eq!(result[c].ty, expected[c].ty);
    }
}

#[test]
fn test_middle_line() {
    let contents = "msgtype,init,16\nmsgdata,init,gflen,u16,\n
        msgdata,init,globalfeatures,byte,gflen\n";
    let char_vec: Vec<char> = contents.chars().collect();
    let scanner = Scanner::new();
    let result = scanner.scan(&char_vec).unwrap();
    assert!(result.len() > 0);
    let expected = vec![
        CSVToken { ty: CSVTokenType::MsgData, val: "msgdata".to_string() },
        CSVToken { ty: CSVTokenType::LiteralString, val: "init".to_string() },
        CSVToken { ty: CSVTokenType::LiteralString, val: "gflen".to_string() },
        CSVToken { ty: CSVTokenType::U16, val: "u16".to_string() },
    ];
    for c in 0..expected.len() - 1 {
        assert_eq!(result[c + 3].val, expected[c].val);
        assert_eq!(result[c + 3].ty, expected[c].ty);
    }
}

#[test]
fn test_last_line() {
    let contents = "msgtype,init,16\nmsgdata,init,gflen,u16,\n
        msgdata,init,globalfeatures,byte,gflen\n";
    let char_vec: Vec<char> = contents.chars().collect();
    let scanner = Scanner::new();
    let mut result = scanner.scan(&char_vec).unwrap();
    result.reverse();
    assert!(result.len() > 0);
    let expected = vec![
        CSVToken { ty: CSVTokenType::EOF, val: "EOF".to_string() },
        CSVToken { ty: CSVTokenType::LiteralString, val: "gflen".to_string() },
        CSVToken { ty: CSVTokenType::Byte, val: "byte".to_string() },
        CSVToken { ty: CSVTokenType::LiteralString, val: "globalfeatures".to_string() },
        CSVToken { ty: CSVTokenType::LiteralString, val: "init".to_string() },
        CSVToken { ty: CSVTokenType::MsgData, val: "msgdata".to_string() },
    ];
    for c in 0..expected.len() - 1 {
        assert_eq!(result[c].val, expected[c].val);
        assert_eq!(result[c].ty, expected[c].ty);
    }
}

#[test]
fn test_empty_middle() {
    assert_eq!(scan_str("msgtype,  ,16\n"), Err(ScanError::EmptyField));
}

#[test]
fn test_empty_front() {
    assert_eq!(scan_str(",,16\n"), Err(ScanError::EmptyField));
}

#[test]
fn test_empty_eof() {
    let contents = "msgtype,init,16\nmsgdata,init,gflen,u16,\n
        msgdata,init,globalfeatures,byte,gflen";
    assert_eq!(scan_str(contents), Err(ScanError::MissingEndMarker));
}

#[test]
fn test_subtype_parsing() {
    let contents = "subtype,init, \
                    subtypedata,init,gflen,u16\n";
    let char_vec: Vec<char> = contents.chars().collect();
    let scanner = Scanner::new();
    let tokens = scanner.scan(&char_vec).unwrap();
    assert_eq!(tokens.len(), 7);
}

#[test]
fn one_line_gives_exactly_four_tokens() {
    let tokens = scan_str("msgtype,init,16\n").unwrap();
    let expected = vec![
        CSVToken { ty: CSVTokenType::MsgTy, val: "msgtype".to_string() },
        CSVToken { ty: CSVTokenType::LiteralString, val: "init".to_string() },
        CSVToken { ty: CSVTokenType::Number, val: "16".to_string() },
        CSVToken { ty: CSVTokenType::EOF, val: "EOF".to_string() },
    ];
    assert_eq!(tokens, expected);
}

#[test]
fn empty_input_is_only_the_end_marker() {
    let tokens = scan_str("").unwrap();
    assert_eq!(tokens.len(), 1);
    assert_eq!(tokens[0].ty, CSVTokenType::EOF);
}

#[test]
fn blank_lines_are_ignored() {
    let tokens = scan_str("\n   \nmsgtype,a,1\n\n").unwrap();
    assert_eq!(tokens.len(), 4);
    assert_eq!(tokens[1].val, "a");
}

#[test]
fn inner_whitespace_is_kept() {
    let tokens = scan_str("msgtype,my msg ,1\n").unwrap();
    assert_eq!(tokens[1].val, "my msg ");
    assert_eq!(tokens[1].ty, CSVTokenType::LiteralString);
}

#[test]
fn unknown_first_field_is_rejected() {
    assert_eq!(scan_str("u16,a,1\n"), Err(ScanError::UnknownDeclaration));
}

#[test]
fn missing_newline_on_single_line() {
    assert_eq!(scan_str("msgtype,init,16"), Err(ScanError::MissingEndMarker));
}

#[test]
fn every_type_keyword_is_classified() {
    let line = "msgdata,m,f,u16,u32,u64,byte,signature,point,channel_id,chain_hash,short_channel_id,sha256,bigsize,tu32,tu64,tlvs,data,...,123,subtypedata\n";
    let tokens = scan_str(line).unwrap();
    let kinds: Vec<CSVTokenType> = tokens.iter().map(|t| t.ty).collect();
    let expected = vec![
        CSVTokenType::MsgData,
        CSVTokenType::LiteralString,
        CSVTokenType::LiteralString,
        CSVTokenType::U16,
        CSVTokenType::U32,
        CSVTokenType::U64,
        CSVTokenType::Byte,
        CSVTokenType::Signature,
        CSVTokenType::Point,
        CSVTokenType::ChannelId,
        CSVTokenType::ChainHash,
        CSVTokenType::ShortChannelId,
        CSVTokenType::Sha256,
        CSVTokenType::BigSize,
        CSVTokenType::Tu32,
        CSVTokenType::Tu64,
        CSVTokenType::Tlvs,
        CSVTokenType::Data,
        CSVTokenType::Dotdotdot,
        CSVTokenType::Number,
        CSVTokenType::LiteralString,
        CSVTokenType::EOF,
    ];
    assert_eq!(kinds, expected);
    assert_eq!(tokens[18].val, "...");
}

#[test]
fn declaration_keywords_are_classified() {
    let tokens = scan_str("subtype,s\nsubtypedata,s,f,u16\ntlvtype,t,n,1\ntlvdata,t,n,f,u8\n").unwrap();
    assert_eq!(tokens[0].ty, CSVTokenType::SubTy);
    assert_eq!(tokens[2].ty, CSVTokenType::SubMsgData);
    assert_eq!(tokens[6].ty, CSVTokenType::TlvType);
    assert_eq!(tokens[10].ty, CSVTokenType::TlvData);
}
