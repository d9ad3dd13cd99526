//! The lexer of the ladder type syntax: from characters to tokens.

use vstd::prelude::*;

verus! {

/// A region of the input: the positions `begin .. end`.
#[derive(PartialEq, Eq, Structural, Clone, Copy, Debug)]
pub struct InputRegionTag {
    pub begin: usize,
    pub end: usize,
}

impl InputRegionTag {
    /// The empty region at the start of the input.
    pub fn default_region() -> (r: InputRegionTag)
        ensures
            r.begin == 0,
            r.end == 0,
    {
        InputRegionTag { begin: 0, end: 0 }
    }

    /// The smallest region that covers both regions.
    pub fn max(a: InputRegionTag, b: InputRegionTag) -> (r: InputRegionTag)
        ensures
            r.begin == if a.begin < b.begin { a.begin } else { b.begin },
            r.end == if a.end < b.end { b.end } else { a.end },
    {
        InputRegionTag {
            begin: if a.begin < b.begin { a.begin } else { b.begin },
            end: if a.end < b.end { b.end } else { a.end },
        }
    }
}

/// A token of the ladder type syntax.
#[derive(Debug)]
pub enum LadderTypeToken {
    Symbol(String),
    Char(char),
    Num(i64),
    Open,
    OpenSpec,
    OpenSeq,
    OpenStruct,
    Close,
    CloseSpec,
    CloseSeq,
    CloseStruct,
    Univ,
    Ladder,
    EnumSep,
    StructSep,
    AssignType,
    SubType,
    TraitType,
    ParallelType,
    ArrowFunc,
    ArrowMorph,
}

/// Model of a token.
pub enum TokenV {
    Symbol(Seq<char>),
    Char(char),
    Num(i64),
    Open,
    OpenSpec,
    OpenSeq,
    OpenStruct,
    Close,
    CloseSpec,
    CloseSeq,
    CloseStruct,
    Univ,
    Ladder,
    EnumSep,
    StructSep,
    AssignType,
    SubType,
    TraitType,
    ParallelType,
    ArrowFunc,
    ArrowMorph,
}

impl View for LadderTypeToken {
    type V = TokenV;

    open spec fn view(&self) -> TokenV {
        match self {
            LadderTypeToken::Symbol(s) => TokenV::Symbol(s@),
            LadderTypeToken::Char(c) => TokenV::Char(*c),
            LadderTypeToken::Num(n) => TokenV::Num(*n),
            LadderTypeToken::Open => TokenV::Open,
            LadderTypeToken::OpenSpec => TokenV::OpenSpec,
            LadderTypeToken::OpenSeq => TokenV::OpenSeq,
            LadderTypeToken::OpenStruct => TokenV::OpenStruct,
            LadderTypeToken::Close => TokenV::Close,
            LadderTypeToken::CloseSpec => TokenV::CloseSpec,
            LadderTypeToken::CloseSeq => TokenV::CloseSeq,
            LadderTypeToken::CloseStruct => TokenV::CloseStruct,
            LadderTypeToken::Univ => TokenV::Univ,
            LadderTypeToken::Ladder => TokenV::Ladder,
            LadderTypeToken::EnumSep => TokenV::EnumSep,
            LadderTypeToken::StructSep => TokenV::StructSep,
            LadderTypeToken::AssignType => TokenV::AssignType,
            LadderTypeToken::SubType => TokenV::SubType,
            LadderTypeToken::TraitType => TokenV::TraitType,
            LadderTypeToken::ParallelType => TokenV::ParallelType,
            LadderTypeToken::ArrowFunc => TokenV::ArrowFunc,
            LadderTypeToken::ArrowMorph => TokenV::ArrowMorph,
        }
    }
}

/// What went wrong while lexing.
#[derive(PartialEq, Eq, Structural, Clone, Copy, Debug)]
pub enum LexError {
    InvalidDigit,
    InvalidChar,
}

/// Whether `c` has the Unicode `White_Space` property: tab to carriage return, space,
/// next line, no-break space, ogham space mark, en quad to hair space, line and
/// paragraph separator, narrow no-break space, medium mathematical space and
/// ideographic space.
pub open spec fn spec_is_whitespace(c: char) -> bool {
    let x = c as u32;
    ||| 0x09 <= x <= 0x0d
    ||| x == 0x20
    ||| x == 0x85
    ||| x == 0xa0
    ||| x == 0x1680
    ||| 0x2000 <= x <= 0x200a
    ||| x == 0x2028
    ||| x == 0x2029
    ||| x == 0x202f
    ||| x == 0x205f
    ||| x == 0x3000
}

/// Whether `c`, a character beyond ASCII, has the Unicode `Alphabetic` property; the
/// property is named, not spelled out.
pub uninterp spec fn spec_is_alphabetic_beyond_ascii(c: char) -> bool;

/// Whether `c` has the Unicode `Alphabetic` property: among the ASCII characters,
/// exactly the Latin letters.
pub open spec fn spec_is_alphabetic(c: char) -> bool {
    if (c as u32) < 0x80 {
        ('a' <= c && c <= 'z') || ('A' <= c && c <= 'Z')
    } else {
        spec_is_alphabetic_beyond_ascii(c)
    }
}

/// Whether `c` has the Unicode `White_Space` property, as `char::is_whitespace` tells.
fn is_whitespace(c: char) -> (r: bool)
    ensures
        r == spec_is_whitespace(c),
{
    let x = c as u32;
    (0x09 <= x && x <= 0x0d) || x == 0x20 || x == 0x85 || x == 0xa0 || x == 0x1680
        || (0x2000 <= x && x <= 0x200a) || x == 0x2028 || x == 0x2029 || x == 0x202f
        || x == 0x205f || x == 0x3000
}

/// `char::is_alphabetic`: whether `c` has the Unicode `Alphabetic` property, which
/// among the ASCII characters the Latin letters have and no other; beyond ASCII the
/// property is named, not spelled out.
#[verifier::external_body]
fn is_alphabetic(c: char) -> (r: bool)
    ensures
        r == spec_is_alphabetic(c),
        (c as u32) >= 0x80 ==> r == spec_is_alphabetic_beyond_ascii(c),
{
    c.is_alphabetic()
}

/// A decimal digit.
pub open spec fn spec_is_digit(c: char) -> bool {
    '0' <= c && c <= '9'
}

/// The value of a decimal digit.
pub open spec fn spec_digit_value(c: char) -> int {
    (c as int) - ('0' as int)
}

/// A character that ends a symbol or a number.
pub open spec fn spec_is_delimiter(c: char) -> bool {
    spec_is_whitespace(c) || c == ')' || c == '>' || c == ']' || c == '}' || c == '~' || c == ':' || c == ';' || c == '|'
}

/// The token of a single-character token, if `c` is one.
pub open spec fn spec_single_token(c: char) -> Option<TokenV> {
    if c == '∀' { Some(TokenV::Univ) }
    else if c == '(' { Some(TokenV::Open) }
    else if c == ')' { Some(TokenV::Close) }
    else if c == '<' { Some(TokenV::OpenSpec) }
    else if c == '>' { Some(TokenV::CloseSpec) }
    else if c == '[' { Some(TokenV::OpenSeq) }
    else if c == ']' { Some(TokenV::CloseSeq) }
    else if c == '{' { Some(TokenV::OpenStruct) }
    else if c == '}' { Some(TokenV::CloseStruct) }
    else if c == ';' { Some(TokenV::StructSep) }
    else if c == '|' { Some(TokenV::EnumSep) }
    else if c == '~' { Some(TokenV::Ladder) }
    else { None }
}

/// The state of the lexer within one token.
pub enum LexStateV {
    Any,
    Sym(Seq<char>),
    Num(bool, int),
    Arrow(Seq<char>),
}

/// The outcome of one lexing step: the next position, the start of the token's region,
/// and the token (`None` at the end of the tokens); or `Fails` where the lexer would not
/// return (it stops on a character it has no rule for) or a number overflows.
pub enum LexOutcome {
    Done { pos: nat, begin: nat, tok: Option<Result<TokenV, LexError>> },
    Fails,
}

/// The token that a state stands for at the end of the input or before a delimiter.
pub open spec fn spec_state_token(st: LexStateV) -> Option<TokenV> {
    match st {
        LexStateV::Any => None,
        LexStateV::Sym(s) => Some(TokenV::Symbol(s)),
        LexStateV::Num(sign, v) => Some(TokenV::Num((if sign { -v } else { v }) as i64)),
        LexStateV::Arrow(s) => if s == seq!['-', '-', '>'] {
            Some(TokenV::ArrowFunc)
        } else if s == seq!['-', 'm', 'o', 'r', 'p', 'h', '-', '>'] {
            Some(TokenV::ArrowMorph)
        } else {
            None
        },
    }
}

/// The rank of a state: a step that does not consume a character lowers it.
pub open spec fn state_rank(st: LexStateV) -> nat {
    match st {
        LexStateV::Any => 2,
        LexStateV::Arrow(_) => 1,
        _ => 0,
    }
}

/// The end of a token at `pos`, from the state it is in.
pub open spec fn spec_finish(st: LexStateV, pos: nat, begin: nat) -> LexOutcome {
    match spec_state_token(st) {
        Some(t) => LexOutcome::Done { pos, begin, tok: Some(Ok(t)) },
        None => LexOutcome::Done { pos, begin, tok: None },
    }
}

/// The escaped character after a backslash.
pub open spec fn spec_unescape(c: char) -> char {
    if c == '0' { '\0' } else if c == 'n' { '\n' } else if c == 't' { '\t' } else { c }
}

/// Lexing a character literal after its opening quote, at `pos`.
pub open spec fn spec_lex_char(s: Seq<char>, pos: nat, begin: nat) -> LexOutcome {
    if pos >= s.len() {
        LexOutcome::Done { pos: pos + 1, begin, tok: Some(Err(LexError::InvalidChar)) }
    } else if s[pos as int] == '\\' {
        if pos + 1 >= s.len() {
            LexOutcome::Done { pos: pos + 2, begin, tok: Some(Err(LexError::InvalidChar)) }
        } else {
            spec_lex_char_close(s, pos + 2, begin, spec_unescape(s[(pos + 1) as int]))
        }
    } else {
        spec_lex_char_close(s, pos + 1, begin, s[pos as int])
    }
}

/// The closing quote of a character literal, at `pos`.
pub open spec fn spec_lex_char_close(s: Seq<char>, pos: nat, begin: nat, c: char) -> LexOutcome {
    if pos < s.len() && s[pos as int] == '\'' {
        LexOutcome::Done { pos: pos + 1, begin, tok: Some(Ok(TokenV::Char(c))) }
    } else {
        LexOutcome::Done { pos: pos + 1, begin, tok: Some(Err(LexError::InvalidChar)) }
    }
}

/// After a colon, at `pos`: the relation token it starts.
pub open spec fn spec_lex_assign(s: Seq<char>, pos: nat, begin: nat) -> LexOutcome {
    if pos >= s.len() {
        LexOutcome::Done { pos, begin, tok: Some(Ok(TokenV::AssignType)) }
    } else {
        let c = s[pos as int];
        if c == '<' || c == '>' || c == '|' {
            let expect = if c == '<' { '=' } else if c == '>' { '<' } else { '|' };
            let t = if c == '<' { TokenV::SubType } else if c == '>' { TokenV::TraitType } else { TokenV::ParallelType };
            if pos + 1 < s.len() && s[(pos + 1) as int] == expect {
                LexOutcome::Done { pos: pos + 2, begin, tok: Some(Ok(t)) }
            } else {
                LexOutcome::Done { pos: pos + 2, begin, tok: Some(Err(LexError::InvalidChar)) }
            }
        } else {
            LexOutcome::Done { pos, begin, tok: Some(Ok(TokenV::AssignType)) }
        }
    }
}

/// The lexer from position `pos` in state `st`; `begin` is where the current token starts.
pub open spec fn spec_lex(s: Seq<char>, pos: nat, st: LexStateV, begin: nat) -> LexOutcome
    decreases s.len() - pos, state_rank(st),
{
    if pos >= s.len() {
        spec_finish(st, pos, begin)
    } else {
        let c = s[pos as int];
        match st {
            LexStateV::Any => {
                if c == '=' {
                    LexOutcome::Done { pos, begin, tok: None }
                } else if spec_single_token(c) is Some {
                    LexOutcome::Done { pos: pos + 1, begin, tok: Some(Ok(spec_single_token(c).unwrap())) }
                } else if c == '\'' {
                    if pos + 1 >= s.len() {
                        LexOutcome::Done { pos: pos + 1, begin, tok: None }
                    } else {
                        spec_lex_char(s, pos + 1, begin)
                    }
                } else if c == ':' {
                    spec_lex_assign(s, pos + 1, begin)
                } else if c == '-' {
                    spec_lex(s, pos, LexStateV::Arrow(Seq::empty()), begin)
                } else if spec_is_whitespace(c) {
                    spec_lex(s, pos + 1, LexStateV::Any, begin + 1)
                } else if spec_is_alphabetic(c) {
                    spec_lex(s, pos, LexStateV::Sym(Seq::empty()), begin)
                } else if spec_is_digit(c) {
                    spec_lex(s, pos, LexStateV::Num(false, 0), begin)
                } else {
                    LexOutcome::Fails
                }
            },
            LexStateV::Arrow(a) => {
                if spec_is_digit(c) {
                    spec_lex(s, pos, LexStateV::Num(true, 0), begin)
                } else if c == '>' && spec_state_token(LexStateV::Arrow(a.push(c))) is Some {
                    LexOutcome::Done { pos: pos + 1, begin, tok: Some(Ok(spec_state_token(LexStateV::Arrow(a.push(c))).unwrap())) }
                } else {
                    spec_lex(s, pos + 1, LexStateV::Arrow(a.push(c)), begin)
                }
            },
            LexStateV::Sym(a) => {
                if spec_is_delimiter(c) {
                    spec_finish(st, pos, begin)
                } else {
                    spec_lex(s, pos + 1, LexStateV::Sym(a.push(c)), begin)
                }
            },
            LexStateV::Num(sign, v) => {
                if spec_is_delimiter(c) {
                    spec_finish(st, pos, begin)
                } else if !spec_is_digit(c) {
                    LexOutcome::Done { pos: pos + 1, begin, tok: Some(Err(LexError::InvalidDigit)) }
                } else if v * 10 + spec_digit_value(c) > i64::MAX {
                    LexOutcome::Fails
                } else {
                    spec_lex(s, pos + 1, LexStateV::Num(sign, v * 10 + spec_digit_value(c)), begin)
                }
            },
        }
    }
}

/// A token result and its model.
pub open spec fn tok_rel(t: Option<Result<TokenV, LexError>>, x: Option<Result<LadderTypeToken, LexError>>) -> bool {
    match t {
        None => x is None,
        Some(Ok(v)) => x matches Some(Ok(y)) && y@ == v,
        Some(Err(e)) => x matches Some(Err(y)) && y == e,
    }
}

/// The state of the lexer within one token.
enum LexState {
    Any,
    Sym(Vec<char>),
    Num(bool, i64),
    Arrow(Vec<char>),
}

impl LexState {
    spec fn model(&self) -> LexStateV {
        match self {
            LexState::Any => LexStateV::Any,
            LexState::Sym(v) => LexStateV::Sym(v@),
            LexState::Num(sign, v) => LexStateV::Num(*sign, *v as int),
            LexState::Arrow(v) => LexStateV::Arrow(v@),
        }
    }
}

/// `String::from_iter`: the string of the given characters.
#[verifier::external_body]
pub(crate) fn string_from_chars(v: &Vec<char>) -> (r: String)
    ensures
        r@ == v@,
{
    v.iter().collect()
}

/// The characters of a string.
pub fn chars_of(s: &str) -> (r: Vec<char>)
    ensures
        r@ == s@,
{
    let mut r: Vec<char> = Vec::new();
    for c in it: s.chars()
        invariant
            it.seq() == s@,
            r@ == it.seq().subrange(0, it.index() as int),
    {
        r.push(c);
        assert(it.seq().subrange(0, it.index() + 1) =~= it.seq().subrange(0, it.index() as int).push(c));
    }
    r
}

/// The token that a state stands for before a delimiter or at the end of the input.
fn state_token(st: &LexState) -> (r: Option<LadderTypeToken>)
    requires
        st matches LexState::Num(sign, v) ==> v >= 0,
    ensures
        match r {
            Some(t) => spec_state_token(st.model()) == Some(t@),
            None => spec_state_token(st.model()) is None,
        },
{
    match st {
        LexState::Any => None,
        LexState::Sym(v) => Some(LadderTypeToken::Symbol(string_from_chars(v))),
        LexState::Num(sign, v) => Some(LadderTypeToken::Num(if *sign { -*v } else { *v })),
        LexState::Arrow(v) => {
            if v.len() == 3 && v[0] == '-' && v[1] == '-' && v[2] == '>' {
                assert(v@ =~= seq!['-', '-', '>']);
                Some(LadderTypeToken::ArrowFunc)
            } else if v.len() == 8 && v[0] == '-' && v[1] == 'm' && v[2] == 'o' && v[3] == 'r'
                && v[4] == 'p' && v[5] == 'h' && v[6] == '-' && v[7] == '>' {
                assert(v@ =~= seq!['-', 'm', 'o', 'r', 'p', 'h', '-', '>']);
                Some(LadderTypeToken::ArrowMorph)
            } else {
                assert(v@ != seq!['-', '-', '>']);
                assert(v@ != seq!['-', 'm', 'o', 'r', 'p', 'h', '-', '>']);
                None
            }
        },
    }
}

/// The token of a single-character token, if `c` is one.
fn single_token(c: char) -> (r: Option<LadderTypeToken>)
    ensures
        match r {
            Some(t) => spec_single_token(c) == Some(t@),
            None => spec_single_token(c) is None,
        },
{
    if c == '∀' { Some(LadderTypeToken::Univ) }
    else if c == '(' { Some(LadderTypeToken::Open) }
    else if c == ')' { Some(LadderTypeToken::Close) }
    else if c == '<' { Some(LadderTypeToken::OpenSpec) }
    else if c == '>' { Some(LadderTypeToken::CloseSpec) }
    else if c == '[' { Some(LadderTypeToken::OpenSeq) }
    else if c == ']' { Some(LadderTypeToken::CloseSeq) }
    else if c == '{' { Some(LadderTypeToken::OpenStruct) }
    else if c == '}' { Some(LadderTypeToken::CloseStruct) }
    else if c == ';' { Some(LadderTypeToken::StructSep) }
    else if c == '|' { Some(LadderTypeToken::EnumSep) }
    else if c == '~' { Some(LadderTypeToken::Ladder) }
    else { None }
}

/// Whether `c` ends a symbol or a number.
fn is_delimiter(c: char) -> (r: bool)
    ensures
        r == spec_is_delimiter(c),
{
    is_whitespace(c) || c == ')' || c == '>' || c == ']' || c == '}' || c == '~' || c == ':' || c == ';' || c == '|'
}

/// The lexer: the characters, the position of the next one, and the region of the last
/// token.
pub struct LadderTypeLexer {
    chars: Vec<char>,
    pub position: usize,
    pub current_region: InputRegionTag,
}

impl LadderTypeLexer {
    /// The input characters.
    pub closed spec fn input(&self) -> Seq<char> {
        self.chars@
    }

    /// The position of the next character.
    pub closed spec fn spec_position(&self) -> usize {
        self.position
    }

    /// The region of the last token.
    pub closed spec fn spec_region(&self) -> InputRegionTag {
        self.current_region
    }

    /// Whether the lexer can go on: its input and position are within bounds.
    pub closed spec fn wf(&self) -> bool {
        &&& self.chars.len() + 8 < usize::MAX
        &&& self.position <= self.chars.len() + 2
    }

    /// A lexer at the start of `s`.
    pub fn from_str(s: &str) -> (r: LadderTypeLexer)
        requires
            s@.len() + 8 < usize::MAX,
        ensures
            r.wf(),
            r.input() == s@,
            r.spec_position() == 0,
            r.spec_region() == (InputRegionTag { begin: 0, end: 0 }),
    {
        LadderTypeLexer { chars: chars_of(s), position: 0, current_region: InputRegionTag { begin: 0, end: 0 } }
    }

    /// The next token with its region, or `None` at the end of the tokens.
    pub fn next(&mut self) -> (r: Option<(InputRegionTag, Result<LadderTypeToken, LexError>)>)
        requires
            old(self).wf(),
            spec_lex(old(self).input(), old(self).spec_position() as nat, LexStateV::Any, old(self).spec_position() as nat) is Done,
        ensures
            final(self).wf(),
            final(self).input() == old(self).input(),
            spec_lex(old(self).input(), old(self).spec_position() as nat, LexStateV::Any, old(self).spec_position() as nat) matches
                LexOutcome::Done { pos, begin, tok } && final(self).spec_position() == pos
                && final(self).spec_region() == (InputRegionTag { begin: begin as usize, end: pos as usize })
                && match tok {
                    None => r is None,
                    Some(Ok(t)) => r matches Some((reg, Ok(x))) && reg == final(self).spec_region() && x@ == t,
                    Some(Err(e)) => r matches Some((reg, Err(x))) && reg == final(self).spec_region() && x == e,
                },
    {
        let ghost s = self.chars@;
        let ghost target = spec_lex(s, self.position as nat, LexStateV::Any, self.position as nat);
        let n = self.chars.len();
        let mut pos = self.position;
        let mut begin = self.position;
        let mut st = LexState::Any;
        let mut tok: Option<Result<LadderTypeToken, LexError>> = None;
        loop
            invariant_except_break
                st matches LexState::Num(sign, v) ==> v >= 0,
                spec_lex(s, pos as nat, st.model(), begin as nat) == target,
            invariant
                s == self.chars@,
                n == self.chars.len(),
                n + 8 < usize::MAX,
                pos <= n + 2,
                begin <= pos,
                target is Done,
                target == spec_lex(old(self).input(), old(self).spec_position() as nat, LexStateV::Any, old(self).spec_position() as nat),
            ensures
                target matches LexOutcome::Done { pos: p, begin: b, tok: t } && p == pos && b == begin && tok_rel(t, tok),
            decreases n + 2 - pos, state_rank(st.model()),
        {
            if pos >= n {
                tok = match state_token(&st) {
                    Some(t) => Some(Ok(t)),
                    None => None,
                };
                break;
            }
            let c = self.chars[pos];
            match st {
                LexState::Any => {
                    if c == '=' {
                        tok = None;
                        break;
                    }
                    match single_token(c) {
                        Some(t) => {
                            pos = pos + 1;
                            tok = Some(Ok(t));
                            break;
                        },
                        None => {},
                    }
                    if c == '\'' {
                        if pos + 1 >= n {
                            pos = pos + 1;
                            tok = None;
                            break;
                        }
                        let d = self.chars[pos + 1];
                        let (p2, ch) = if d == '\\' {
                            if pos + 2 >= n {
                                pos = pos + 3;
                                tok = Some(Err(LexError::InvalidChar));
                                break;
                            }
                            let e = self.chars[pos + 2];
                            let u = if e == '0' { '\0' } else if e == 'n' { '\n' } else if e == 't' { '\t' } else { e };
                            (pos + 3, u)
                        } else {
                            (pos + 2, d)
                        };
                        if p2 < n && self.chars[p2] == '\'' {
                            pos = p2 + 1;
                            tok = Some(Ok(LadderTypeToken::Char(ch)));
                        } else {
                            pos = p2 + 1;
                            tok = Some(Err(LexError::InvalidChar));
                        }
                        break;
                    }
                    if c == ':' {
                        if pos + 1 >= n {
                            pos = pos + 1;
                            tok = Some(Ok(LadderTypeToken::AssignType));
                            break;
                        }
                        let d = self.chars[pos + 1];
                        if d == '<' || d == '>' || d == '|' {
                            let expect = if d == '<' { '=' } else if d == '>' { '<' } else { '|' };
                            if pos + 2 < n && self.chars[pos + 2] == expect {
                                tok = Some(Ok(if d == '<' {
                                    LadderTypeToken::SubType
                                } else if d == '>' {
                                    LadderTypeToken::TraitType
                                } else {
                                    LadderTypeToken::ParallelType
                                }));
                            } else {
                                tok = Some(Err(LexError::InvalidChar));
                            }
                            pos = pos + 3;
                        } else {
                            pos = pos + 1;
                            tok = Some(Ok(LadderTypeToken::AssignType));
                        }
                        break;
                    }
                    if c == '-' {
                        st = LexState::Arrow(Vec::new());
                    } else if is_whitespace(c) {
                        pos = pos + 1;
                        begin = begin + 1;
                        st = LexState::Any;
                    } else if is_alphabetic(c) {
                        st = LexState::Sym(Vec::new());
                    } else if '0' <= c && c <= '9' {
                        st = LexState::Num(false, 0);
                    } else {
                        assert(false);
                        break;
                    }
                },
                LexState::Arrow(mut a) => {
                    if '0' <= c && c <= '9' {
                        st = LexState::Num(true, 0);
                    } else {
                        a.push(c);
                        pos = pos + 1;
                        if c == '>' {
                            let probe = LexState::Arrow(a);
                            match state_token(&probe) {
                                Some(t) => {
                                    tok = Some(Ok(t));
                                    break;
                                },
                                None => {},
                            }
                            st = probe;
                        } else {
                            st = LexState::Arrow(a);
                        }
                    }
                },
                LexState::Sym(mut a) => {
                    if is_delimiter(c) {
                        let fin = LexState::Sym(a);
                        tok = match state_token(&fin) {
                            Some(t) => Some(Ok(t)),
                            None => None,
                        };
                        break;
                    }
                    a.push(c);
                    pos = pos + 1;
                    st = LexState::Sym(a);
                },
                LexState::Num(sign, v) => {
                    if is_delimiter(c) {
                        let fin = LexState::Num(sign, v);
                        tok = match state_token(&fin) {
                            Some(t) => Some(Ok(t)),
                            None => None,
                        };
                        break;
                    }
                    if !('0' <= c && c <= '9') {
                        pos = pos + 1;
                        tok = Some(Err(LexError::InvalidDigit));
                        break;
                    }
                    let d = (c as u32 - '0' as u32) as i64;
                    if v > (i64::MAX - d) / 10 {
                        assert(false);
                        break;
                    }
                    pos = pos + 1;
                    st = LexState::Num(sign, v * 10 + d);
                },
            }
        }
        self.position = pos;
        self.current_region = InputRegionTag { begin, end: pos };
        match tok {
            None => None,
            Some(t) => Some((self.current_region, t)),
        }
    }
}

} // verus!
