//! The scanner: newline-terminated lines of comma-separated fields become
//! tokens, closed by one end-of-stream token.
use vstd::prelude::*;

use crate::parser::all_digits;
use crate::token::{tokens_view, CSVToken, CSVTokenType, TokenView};

verus! {

/// Why a character buffer is not a valid declaration file.
#[derive(Clone, Copy, PartialEq, Eq, Debug, Structural)]
pub enum ScanError {
    /// Two separators (or a line start and a separator) with nothing but
    /// blanks between them.
    EmptyField,
    /// The input does not end with a newline.
    MissingEndMarker,
    /// A line starts with a word that is no declaration keyword.
    UnknownDeclaration,
}

pub open spec fn is_blank(c: char) -> bool {
    c == ' ' || c == '\t' || c == '\r'
}

/// `s` without its leading blanks.
pub open spec fn trim_start(s: Seq<char>) -> Seq<char>
    decreases s.len(),
{
    if s.len() > 0 && is_blank(s[0]) {
        trim_start(s.drop_first())
    } else {
        s
    }
}

/// The index of the first `c` in `s`, or the length of `s` if there is none.
pub open spec fn index_of(s: Seq<char>, c: char) -> int
    decreases s.len(),
{
    if s.len() == 0 {
        0
    } else if s[0] == c {
        0
    } else {
        1 + index_of(s.drop_first(), c)
    }
}

/// The pieces of `s` between occurrences of `c`.
pub open spec fn split_on(s: Seq<char>, c: char) -> Seq<Seq<char>>
    decreases s.len(),
{
    let k = index_of(s, c);
    if 0 <= k < s.len() {
        seq![s.take(k)] + split_on(s.skip(k + 1), c)
    } else {
        seq![s]
    }
}

/// The kind of a line's first field.
pub open spec fn declaration_kind(w: Seq<char>) -> Option<CSVTokenType> {
    if w == "msgtype"@ {
        Some(CSVTokenType::MsgTy)
    } else if w == "msgdata"@ {
        Some(CSVTokenType::MsgData)
    } else if w == "subtype"@ {
        Some(CSVTokenType::SubTy)
    } else if w == "subtypedata"@ {
        Some(CSVTokenType::SubMsgData)
    } else if w == "tlvtype"@ {
        Some(CSVTokenType::TlvType)
    } else if w == "tlvdata"@ {
        Some(CSVTokenType::TlvData)
    } else {
        None
    }
}

/// The kind of a field after the first.
pub open spec fn field_kind(w: Seq<char>) -> CSVTokenType {
    if w == "u16"@ {
        CSVTokenType::U16
    } else if w == "u32"@ {
        CSVTokenType::U32
    } else if w == "u64"@ {
        CSVTokenType::U64
    } else if w == "byte"@ {
        CSVTokenType::Byte
    } else if w == "signature"@ {
        CSVTokenType::Signature
    } else if w == "point"@ {
        CSVTokenType::Point
    } else if w == "channel_id"@ {
        CSVTokenType::ChannelId
    } else if w == "chain_hash"@ {
        CSVTokenType::ChainHash
    } else if w == "short_channel_id"@ {
        CSVTokenType::ShortChannelId
    } else if w == "sha256"@ {
        CSVTokenType::Sha256
    } else if w == "bigsize"@ {
        CSVTokenType::BigSize
    } else if w == "tu32"@ {
        CSVTokenType::Tu32
    } else if w == "tu64"@ {
        CSVTokenType::Tu64
    } else if w == "tlvs"@ {
        CSVTokenType::Tlvs
    } else if w == "data"@ {
        CSVTokenType::Data
    } else if w == "..."@ {
        CSVTokenType::Dotdotdot
    } else if all_digits(w) {
        CSVTokenType::Number
    } else {
        CSVTokenType::LiteralString
    }
}

/// The tokens of a line's fields `fs`; `first` tells whether `fs[0]` opens
/// the line. A token's text is its field without the leading blanks; the
/// rest of the field, blanks included, is kept as it stands. A blank field is an error unless it is the last one, which is
/// then dropped.
pub open spec fn fields_tokens(fs: Seq<Seq<char>>, first: bool) -> Result<Seq<TokenView>, ScanError>
    decreases fs.len(),
{
    if fs.len() == 0 {
        Ok(seq![])
    } else {
        let w = trim_start(fs[0]);
        if w.len() == 0 {
            if fs.len() == 1 {
                Ok(seq![])
            } else {
                Err(ScanError::EmptyField)
            }
        } else {
            let kind = if first { declaration_kind(w) } else { Some(field_kind(w)) };
            match kind {
                None => Err(ScanError::UnknownDeclaration),
                Some(k) => match fields_tokens(fs.drop_first(), false) {
                    Ok(rest) => Ok(seq![TokenView { ty: k, text: w }] + rest),
                    Err(e) => Err(e),
                },
            }
        }
    }
}

/// The tokens of one line, without its newline.
pub open spec fn line_tokens(line: Seq<char>) -> Result<Seq<TokenView>, ScanError> {
    fields_tokens(split_on(line, ','), true)
}

/// The tokens of the lines `ls`, in order.
pub open spec fn lines_tokens(ls: Seq<Seq<char>>) -> Result<Seq<TokenView>, ScanError>
    decreases ls.len(),
{
    if ls.len() == 0 {
        Ok(seq![])
    } else {
        match line_tokens(ls[0]) {
            Ok(a) => match lines_tokens(ls.drop_first()) {
                Ok(b) => Ok(a + b),
                Err(e) => Err(e),
            },
            Err(e) => Err(e),
        }
    }
}

pub open spec fn eof_token() -> TokenView {
    TokenView { ty: CSVTokenType::EOF, text: "EOF"@ }
}

/// The tokens of a whole input: those of its lines, then the end-of-stream
/// token.
pub open spec fn scan_chars(s: Seq<char>) -> Result<Seq<TokenView>, ScanError> {
    if s.len() > 0 && s.last() != '\n' {
        Err(ScanError::MissingEndMarker)
    } else {
        match lines_tokens(split_on(s, '\n')) {
            Ok(ts) => Ok(ts.push(eof_token())),
            Err(e) => Err(e),
        }
    }
}

/// Tokens gathered so far followed by the result for the rest.
pub open spec fn after(acc: Seq<TokenView>, r: Result<Seq<TokenView>, ScanError>) -> Result<Seq<TokenView>, ScanError> {
    match r {
        Ok(rest) => Ok(acc + rest),
        Err(e) => Err(e),
    }
}

/// Input that does not end with a newline is rejected for its missing end
/// marker.
pub proof fn lemma_missing_newline(s: Seq<char>)
    requires
        s.len() > 0,
        s.last() != '\n',
    ensures
        scan_chars(s) == Err::<Seq<TokenView>, ScanError>(ScanError::MissingEndMarker),
{
}

proof fn lemma_index_of(s: Seq<char>, c: char, k: int)
    requires
        0 <= k <= s.len(),
        forall|i: int| 0 <= i < k ==> s[i] != c,
        k < s.len() ==> s[k] == c,
    ensures
        index_of(s, c) == k,
    decreases k,
{
    if k > 0 {
        lemma_index_of(s.drop_first(), c, k - 1);
    }
}

proof fn lemma_split_step(s: Seq<char>, c: char, k: int, e: int, hi: int)
    requires
        0 <= k <= e <= hi <= s.len(),
        forall|i: int| k <= i < e ==> s[i] != c,
        e < hi ==> s[e] == c,
    ensures
        e < hi ==> split_on(s.subrange(k, hi), c) == seq![s.subrange(k, e)] + split_on(s.subrange(e + 1, hi), c),
        e == hi ==> split_on(s.subrange(k, hi), c) == seq![s.subrange(k, hi)],
{
    let w = s.subrange(k, hi);
    lemma_index_of(w, c, e - k);
    if e < hi {
        assert(w.take(e - k) =~= s.subrange(k, e));
        assert(w.skip(e - k + 1) =~= s.subrange(e + 1, hi));
    }
}

proof fn lemma_trim(s: Seq<char>, k: int, b: int, e: int)
    requires
        0 <= k <= b <= e <= s.len(),
        forall|i: int| k <= i < b ==> is_blank(s[i]),
        b < e ==> !is_blank(s[b]),
    ensures
        trim_start(s.subrange(k, e)) == s.subrange(b, e),
    decreases b - k,
{
    if b > k {
        assert(s.subrange(k, e).drop_first() =~= s.subrange(k + 1, e));
        lemma_trim(s, k + 1, b, e);
    }
}

/// Relies on String::push: the character is appended at the end.
#[verifier::external_body]
fn push_char(s: &mut String, c: char)
    ensures
        final(s)@ == old(s)@.push(c),
{
    s.push(c)
}

/// Whether `text` is the word `w`.
fn is_word(text: &String, w: &str) -> (r: bool)
    ensures
        r == (text@ == w@),
{
    let word = String::from_str(w);
    *text == word
}

/// The kind of a line's first field, if it is a declaration keyword.
fn declaration_kind_of(text: &String) -> (r: Option<CSVTokenType>)
    ensures
        r == declaration_kind(text@),
{
    if is_word(text, "msgtype") {
        Some(CSVTokenType::MsgTy)
    } else if is_word(text, "msgdata") {
        Some(CSVTokenType::MsgData)
    } else if is_word(text, "subtype") {
        Some(CSVTokenType::SubTy)
    } else if is_word(text, "subtypedata") {
        Some(CSVTokenType::SubMsgData)
    } else if is_word(text, "tlvtype") {
        Some(CSVTokenType::TlvType)
    } else if is_word(text, "tlvdata") {
        Some(CSVTokenType::TlvData)
    } else {
        None
    }
}

/// Whether every character of `text` is a decimal digit.
fn is_all_digits(text: &String) -> (r: bool)
    ensures
        r == all_digits(text@),
{
    let st = text.as_str();
    let n = st.unicode_len();
    let mut i: usize = 0;
    while i < n
        invariant
            st@ == text@,
            n == text@.len(),
            0 <= i <= n,
            forall|j: int| 0 <= j < i ==> crate::parser::is_digit(#[trigger] text@[j]),
        decreases n - i,
    {
        let c = st.get_char(i);
        if !('0' <= c && c <= '9') {
            return false;
        }
        i = i + 1;
    }
    true
}

/// The kind of a field after the first.
fn field_kind_of(text: &String) -> (r: CSVTokenType)
    ensures
        r == field_kind(text@),
{
    if is_word(text, "u16") {
        CSVTokenType::U16
    } else if is_word(text, "u32") {
        CSVTokenType::U32
    } else if is_word(text, "u64") {
        CSVTokenType::U64
    } else if is_word(text, "byte") {
        CSVTokenType::Byte
    } else if is_word(text, "signature") {
        CSVTokenType::Signature
    } else if is_word(text, "point") {
        CSVTokenType::Point
    } else if is_word(text, "channel_id") {
        CSVTokenType::ChannelId
    } else if is_word(text, "chain_hash") {
        CSVTokenType::ChainHash
    } else if is_word(text, "short_channel_id") {
        CSVTokenType::ShortChannelId
    } else if is_word(text, "sha256") {
        CSVTokenType::Sha256
    } else if is_word(text, "bigsize") {
        CSVTokenType::BigSize
    } else if is_word(text, "tu32") {
        CSVTokenType::Tu32
    } else if is_word(text, "tu64") {
        CSVTokenType::Tu64
    } else if is_word(text, "tlvs") {
        CSVTokenType::Tlvs
    } else if is_word(text, "data") {
        CSVTokenType::Data
    } else if is_word(text, "...") {
        CSVTokenType::Dotdotdot
    } else if is_all_digits(text) {
        CSVTokenType::Number
    } else {
        CSVTokenType::LiteralString
    }
}

/// Reads the scanner's input into tokens.
pub struct Scanner {}

impl Scanner {
    pub fn new() -> (r: Scanner) {
        Scanner {}
    }

    /// Appends the tokens of the line `chars[lo..hi]` to `out`.
    fn scan_line(&self, chars: &Vec<char>, lo: usize, hi: usize, out: &mut Vec<CSVToken>) -> (r: Result<(), ScanError>)
        requires
            lo <= hi <= chars@.len(),
        ensures
            match line_tokens(chars@.subrange(lo as int, hi as int)) {
                Ok(ts) => r is Ok && tokens_view(final(out)@) == tokens_view(old(out)@) + ts,
                Err(e) => r == Err::<(), ScanError>(e),
            },
    {
        let ghost s = chars@;
        let mut k: usize = lo;
        let mut first: bool = true;
        loop
            invariant
                s == chars@,
                lo <= k <= hi <= s.len(),
                after(tokens_view(out@), fields_tokens(split_on(s.subrange(k as int, hi as int), ','), first))
                    == after(tokens_view(old(out)@), line_tokens(s.subrange(lo as int, hi as int))),
            decreases hi - k,
        {
            let mut e: usize = k;
            while e < hi && chars[e] != ','
                invariant
                    k <= e <= hi <= chars@.len(),
                    forall|j: int| k <= j < e ==> chars@[j] != ',',
                decreases hi - e,
            {
                e = e + 1;
            }
            let mut b: usize = k;
            while b < e && (chars[b] == ' ' || chars[b] == '\t' || chars[b] == '\r')
                invariant
                    k <= b <= e <= hi <= chars@.len(),
                    forall|j: int| k <= j < b ==> is_blank(chars@[j]),
                decreases e - b,
            {
                b = b + 1;
            }
            let ghost fs = split_on(s.subrange(k as int, hi as int), ',');
            proof {
                lemma_split_step(s, ',', k as int, e as int, hi as int);
                lemma_trim(s, k as int, b as int, e as int);
                if e < hi {
                    let rest = split_on(s.subrange(e + 1, hi as int), ',');
                    assert((seq![s.subrange(k as int, e as int)] + rest).drop_first() =~= rest);
                    lemma_split_nonempty(s.subrange(e + 1, hi as int), ',');
                }
            }
            if b == e {
                if e == hi {
                    return Ok(());
                }
                return Err(ScanError::EmptyField);
            }
            let mut text = String::new();
            let mut x: usize = b;
            while x < e
                invariant
                    b <= x <= e <= chars@.len(),
                    text@ == s.subrange(b as int, x as int),
                    s == chars@,
                decreases e - x,
            {
                push_char(&mut text, chars[x]);
                x = x + 1;
                assert(text@ =~= s.subrange(b as int, x as int));
            }
            let kind = if first {
                match declaration_kind_of(&text) {
                    Some(kd) => kd,
                    None => return Err(ScanError::UnknownDeclaration),
                }
            } else {
                field_kind_of(&text)
            };
            let tok = CSVToken { ty: kind, val: text };
            let ghost before = tokens_view(out@);
            out.push(tok);
            proof {
                assert(tokens_view(out@) =~= before.push(tok@));
                let r = fields_tokens(fs.drop_first(), false);
                if let Ok(rest) = r {
                    assert(before + (seq![tok@] + rest) =~= before.push(tok@) + rest);
                }
                if e == hi {
                    assert(fs.drop_first() =~= seq![]);
                    assert(before.push(tok@) + seq![] =~= before.push(tok@));
                }
            }
            if e == hi {
                return Ok(());
            }
            k = e + 1;
            first = false;
        }
    }

    /// The tokens of `chars`: one per non-blank field of each
    /// newline-terminated line, then the end-of-stream token.
    pub fn scan(&self, chars: &Vec<char>) -> (r: Result<Vec<CSVToken>, ScanError>)
        ensures
            match scan_chars(chars@) {
                Ok(ts) => r matches Ok(v) && tokens_view(v@) == ts,
                Err(e) => r == Err::<Vec<CSVToken>, ScanError>(e),
            },
    {
        let ghost s = chars@;
        let n = chars.len();
        if n > 0 && chars[n - 1] != '\n' {
            return Err(ScanError::MissingEndMarker);
        }
        let mut out: Vec<CSVToken> = Vec::new();
        let mut i: usize = 0;
        assert(s.subrange(0, n as int) =~= s);
        assert(tokens_view(out@) =~= seq![]);
        while i < n
            invariant
                s == chars@,
                n == s.len(),
                0 <= i <= n,
                n > 0 ==> s[n - 1] == '\n',
                after(tokens_view(out@), lines_tokens(split_on(s.subrange(i as int, n as int), '\n')))
                    == after(seq![], lines_tokens(split_on(s, '\n'))),
            decreases n - i,
        {
            let mut e: usize = i;
            while chars[e] != '\n'
                invariant
                    i <= e < n == chars@.len(),
                    chars@[n - 1] == '\n',
                    forall|j: int| i <= j < e ==> chars@[j] != '\n',
                decreases n - e,
            {
                e = e + 1;
            }
            let ghost before = tokens_view(out@);
            proof {
                lemma_split_step(s, '\n', i as int, e as int, n as int);
                let rest = split_on(s.subrange(e + 1, n as int), '\n');
                assert((seq![s.subrange(i as int, e as int)] + rest).drop_first() =~= rest);
            }
            let step = self.scan_line(chars, i, e, &mut out);
            if let Err(err) = step {
                return Err(err);
            }
            proof {
                let rest = split_on(s.subrange(e + 1, n as int), '\n');
                let a = line_tokens(s.subrange(i as int, e as int))->Ok_0;
                if let Ok(b) = lines_tokens(rest) {
                    assert(before + (a + b) =~= (before + a) + b);
                }
            }
            i = e + 1;
        }
        proof {
            let empty = s.subrange(n as int, n as int);
            assert(empty =~= Seq::<char>::empty());
            lemma_split_step(empty, '\n', 0, 0, 0);
            lemma_split_step(empty, ',', 0, 0, 0);
            assert(empty.subrange(0, 0) =~= empty);
            assert(split_on(empty, '\n') == seq![empty]);
            assert(split_on(empty, ',') == seq![empty]);
            assert(trim_start(empty) == empty);
            assert(fields_tokens(seq![empty], true) == Ok::<Seq<TokenView>, ScanError>(seq![]));
            assert(line_tokens(empty) == Ok::<Seq<TokenView>, ScanError>(seq![]));
            assert(seq![empty].drop_first() =~= Seq::<Seq<char>>::empty());
            assert(lines_tokens(Seq::<Seq<char>>::empty()) == Ok::<Seq<TokenView>, ScanError>(seq![]));
            assert(lines_tokens(split_on(empty, '\n')) == Ok::<Seq<TokenView>, ScanError>(Seq::<TokenView>::empty() + Seq::<TokenView>::empty()));
            assert(tokens_view(out@) + (seq![] + seq![]) =~= tokens_view(out@));
            if let Ok(ts) = lines_tokens(split_on(s, '\n')) {
                assert(seq![] + ts =~= ts);
            }
        }
        let eof = String::from_str("EOF");
        let ghost before = tokens_view(out@);
        out.push(CSVToken { ty: CSVTokenType::EOF, val: eof });
        assert(tokens_view(out@) =~= before.push(eof_token()));
        Ok(out)
    }
}

proof fn lemma_split_nonempty(s: Seq<char>, c: char)
    ensures
        split_on(s, c).len() >= 1,
    decreases s.len(),
{
    let k = index_of(s, c);
    if 0 <= k < s.len() {
        lemma_split_nonempty(s.skip(k + 1), c);
    }
}

} // verus!
