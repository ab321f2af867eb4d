//! A bot character file, read from its script tokens
//! (`BotLoadCharacterFromFile`): blocks `skill <number> { ... }`; in the
//! block of the skill asked for, characteristics `<index> <value>`.
use vstd::prelude::*;
use crate::character::{bot_character_s, bot_characteristic_s, MAX_CHARACTERISTICS};

verus! {

/// A token of a script (a character file, a weight configuration), as the
/// script reader hands it over.
pub enum Token {
    /// a number: its integer and float values (the float as its bit
    /// pattern), and whether it was written as a float
    Number(i32, u32, bool),
    /// a quoted string, its contents without the quotes
    Str(Vec<u8>),
    /// any other token, its text
    Other(Vec<u8>),
}

/// The view of a token.
pub enum TokenView {
    Number(i32, u32, bool),
    Str(Seq<u8>),
    Other(Seq<u8>),
}

pub open spec fn char_token_view(t: Token) -> TokenView {
    match t {
        Token::Number(i, f, fl) => TokenView::Number(i, f, fl),
        Token::Str(s) => TokenView::Str(s@),
        Token::Other(s) => TokenView::Other(s@),
    }
}

/// The view of a characteristic: its value, a string as its buffer.
pub enum CharValue {
    Unset,
    Integer(i32),
    Float(u32),
    String(Seq<u8>),
}

pub open spec fn char_value_view(c: bot_characteristic_s) -> CharValue {
    match c {
        bot_characteristic_s::Unset => CharValue::Unset,
        bot_characteristic_s::Integer(i) => CharValue::Integer(i),
        bot_characteristic_s::Float(f) => CharValue::Float(f),
        bot_characteristic_s::String(s) => CharValue::String(s@),
    }
}

/// The views of characteristics.
pub open spec fn values_view(c: Seq<bot_characteristic_s>) -> Seq<CharValue> {
    c.map_values(|v: bot_characteristic_s| char_value_view(v))
}

/// The views of tokens.
pub open spec fn tokens_view(toks: Seq<Token>) -> Seq<TokenView> {
    toks.map_values(|t: Token| char_token_view(t))
}

/// Why a character file was refused.
#[derive(Clone, Copy, Debug, PartialEq, Eq, Structural)]
pub enum CharScriptError {
    /// a token that starts no definition
    UnknownDefinition,
    /// `skill` not followed by a number
    MissingSkillNumber,
    /// a skill number not followed by `{`
    MissingBrace,
    /// a block of another skill that is not closed
    UnclosedBlock,
    /// a characteristic index that is no integer
    NotAnIndex,
    /// a characteristic index outside `0 .. MAX_CHARACTERISTICS`
    IndexOutOfRange,
    /// a characteristic given twice
    AlreadyInitialized,
    /// an index at the end of the file
    MissingValue,
    /// a value that is no number or string
    BadValue,
    /// no block of the skill asked for
    NoCharacter,
}

/// Token `t` is the word `w`.
pub open spec fn is_word(t: TokenView, w: Seq<u8>) -> bool {
    t matches TokenView::Other(s) && s == w
}

pub open spec fn word_skill() -> Seq<u8> {
    seq![115u8, 107u8, 105u8, 108u8, 108u8]
}

pub open spec fn word_open() -> Seq<u8> {
    seq![123u8]
}

pub open spec fn word_close() -> Seq<u8> {
    seq![125u8]
}

/// Position after the `}` that closes a block with `indent` blocks open,
/// from position `pos` on; none when the tokens end first.
pub open spec fn skip_block(toks: Seq<TokenView>, pos: int, indent: int) -> Option<int>
    decreases toks.len() - pos,
{
    if pos < 0 || pos >= toks.len() {
        None
    } else {
        let i2 = if is_word(toks[pos], word_open()) {
            indent + 1
        } else if is_word(toks[pos], word_close()) {
            indent - 1
        } else {
            indent
        };
        if i2 == 0 { Some(pos + 1) } else { skip_block(toks, pos + 1, i2) }
    }
}

/// A skipped block ends after where the skipping starts, within the tokens.
pub proof fn lemma_skip_end(toks: Seq<TokenView>, pos: int, indent: int)
    ensures
        skip_block(toks, pos, indent) matches Some(p) ==> pos < p <= toks.len(),
    decreases toks.len() - pos,
{
    if 0 <= pos < toks.len() {
        let i2 = if is_word(toks[pos], word_open()) {
            indent + 1
        } else if is_word(toks[pos], word_close()) {
            indent - 1
        } else {
            indent
        };
        if i2 != 0 {
            lemma_skip_end(toks, pos + 1, i2);
        }
    }
}

/// The characteristic a value token gives, none for a token of another kind.
pub open spec fn value_of(t: TokenView) -> Option<CharValue> {
    match t {
        TokenView::Number(i, f, fl) => if fl { Some(CharValue::Float(f)) } else { Some(CharValue::Integer(i)) },
        TokenView::Str(s) => Some(CharValue::String(s.push(0u8))),
        TokenView::Other(_) => None,
    }
}

/// The characteristics `c` after the entries of the skill block from
/// position `pos` on, up to its `}` or the end of the tokens.
pub open spec fn read_entries(toks: Seq<TokenView>, pos: int, c: Seq<CharValue>) -> Result<Seq<CharValue>, CharScriptError>
    decreases toks.len() - pos,
{
    if pos < 0 || pos >= toks.len() || is_word(toks[pos], word_close()) {
        Ok(c)
    } else {
        match toks[pos] {
            TokenView::Number(index, _, fl) => if fl {
                Err(CharScriptError::NotAnIndex)
            } else if index < 0 || index >= MAX_CHARACTERISTICS {
                Err(CharScriptError::IndexOutOfRange)
            } else if !(c[index as int] is Unset) {
                Err(CharScriptError::AlreadyInitialized)
            } else if pos + 1 >= toks.len() {
                Err(CharScriptError::MissingValue)
            } else {
                match value_of(toks[pos + 1]) {
                    None => Err(CharScriptError::BadValue),
                    Some(v) => read_entries(toks, pos + 2, c.update(index as int, v)),
                }
            },
            _ => Err(CharScriptError::NotAnIndex),
        }
    }
}

/// No characteristic set.
pub open spec fn unset_all() -> Seq<CharValue> {
    Seq::new(MAX_CHARACTERISTICS as nat, |i: int| CharValue::Unset)
}

/// The skill number and characteristics of the first block, from position
/// `pos` on, of skill `skill` (of any skill when `skill` is negative); the
/// blocks before it are skipped.
pub open spec fn read_character(toks: Seq<TokenView>, pos: int, skill: i32)
    -> Result<(i32, Seq<CharValue>), CharScriptError>
    decreases toks.len() - pos,
{
    if pos < 0 || pos >= toks.len() {
        Err(CharScriptError::NoCharacter)
    } else if !is_word(toks[pos], word_skill()) {
        Err(CharScriptError::UnknownDefinition)
    } else if pos + 1 >= toks.len() || !(toks[pos + 1] is Number) {
        Err(CharScriptError::MissingSkillNumber)
    } else if pos + 2 >= toks.len() || !is_word(toks[pos + 2], word_open()) {
        Err(CharScriptError::MissingBrace)
    } else {
        let number = toks[pos + 1]->Number_0;
        if skill < 0 || number == skill {
            match read_entries(toks, pos + 3, unset_all()) {
                Ok(c) => Ok((number, c)),
                Err(e) => Err(e),
            }
        } else {
            match skip_block(toks, pos + 3, 1) {
                None => Err(CharScriptError::UnclosedBlock),
                Some(p) => {
                    proof {
                        lemma_skip_end(toks, pos + 3, 1);
                    }
                    read_character(toks, p, skill)
                },
            }
        }
    }
}

/// Token `t` is the word `skill`.
fn is_skill_word(t: &Token) -> (r: bool)
    ensures
        r == is_word(char_token_view(*t), word_skill()),
{
    match t {
        Token::Other(s) => {
            let r = s.len() == 5 && s[0] == 115u8 && s[1] == 107u8 && s[2] == 105u8 && s[3] == 108u8 && s[4] == 108u8;
            proof {
                if r {
                    assert(s@ =~= word_skill());
                }
            }
            r
        },
        _ => false,
    }
}

/// Token `t` is the one-byte word `c`.
pub fn is_char_word(t: &Token, c: u8) -> (r: bool)
    ensures
        r == is_word(char_token_view(*t), seq![c]),
{
    match t {
        Token::Other(s) => {
            let r = s.len() == 1 && s[0] == c;
            proof {
                if r {
                    assert(s@ =~= seq![c]);
                }
            }
            r
        },
        _ => false,
    }
}

/// The zero terminated copy of `s`.
pub fn zcopy(s: &Vec<u8>) -> (r: Vec<u8>)
    ensures
        r@ == s@.push(0u8),
{
    let mut r: Vec<u8> = Vec::new();
    let mut i: usize = 0;
    while i < s.len()
        invariant
            i <= s@.len(),
            r@ == s@.take(i as int),
        decreases s@.len() - i,
    {
        r.push(s[i]);
        proof {
            assert(s@.take(i as int + 1) =~= s@.take(i as int).push(s@[i as int]));
        }
        i += 1;
    }
    proof {
        assert(s@.take(s@.len() as int) =~= s@);
    }
    r.push(0);
    r
}

/// The exact copy of `s`.
fn copy_bytes(s: &Vec<u8>) -> (r: Vec<u8>)
    ensures
        r@ == s@,
{
    let mut r: Vec<u8> = Vec::new();
    let mut i: usize = 0;
    while i < s.len()
        invariant
            i <= s@.len(),
            r@ == s@.take(i as int),
        decreases s@.len() - i,
    {
        r.push(s[i]);
        proof {
            assert(s@.take(i as int + 1) =~= s@.take(i as int).push(s@[i as int]));
        }
        i += 1;
    }
    proof {
        assert(s@.take(s@.len() as int) =~= s@);
    }
    r
}

/// The position after the block that starts before `start`, skipping the
/// blocks inside it.
fn skip_tokens(toks: &Vec<Token>, start: usize, Ghost(tv): Ghost<Seq<TokenView>>) -> (r: Option<usize>)
    requires
        tv == tokens_view(toks@),
    ensures
        match skip_block(tv, start as int, 1) {
            None => r is None,
            Some(p) => r == Some(p as usize),
        },
{
    let mut indent: u128 = 1;
    let mut pos: usize = start;
    while pos < toks.len()
        invariant
            tv == tokens_view(toks@),
            start <= pos,
            1 <= indent <= 1 + pos - start,
            skip_block(tv, start as int, 1) == skip_block(tv, pos as int, indent as int),
        decreases toks@.len() - pos,
    {
        proof {
            assert(tv[pos as int] == char_token_view(toks@[pos as int]));
        }
        if is_char_word(&toks[pos], 123u8) {
            proof { assert(seq![123u8] =~= word_open()); }
            indent = indent + 1;
        } else if is_char_word(&toks[pos], 125u8) {
            proof {
                assert(seq![123u8] =~= word_open());
                assert(seq![125u8] =~= word_close());
            }
            indent = indent - 1;
            if indent == 0 {
                return Some(pos + 1);
            }
        } else {
            proof {
                assert(seq![123u8] =~= word_open());
                assert(seq![125u8] =~= word_close());
            }
        }
        pos += 1;
    }
    None
}

/// Reads the entries of the skill block from token `start` on into `c`.
fn read_entry_tokens(toks: &Vec<Token>, start: usize, c: &mut Vec<bot_characteristic_s>,
    Ghost(tv): Ghost<Seq<TokenView>>) -> (r: Result<(), CharScriptError>)
    requires
        tv == tokens_view(toks@),
        old(c)@.len() == MAX_CHARACTERISTICS,
    ensures
        final(c)@.len() == MAX_CHARACTERISTICS,
        match read_entries(tv, start as int, values_view(old(c)@)) {
            Ok(cs) => r is Ok && values_view(final(c)@) == cs,
            Err(e) => r == Err::<(), CharScriptError>(e),
        },
{
    let ghost c0 = values_view(old(c)@);
    let mut pos: usize = start;
    while pos < toks.len()
        invariant
            tv == tokens_view(toks@),
            c0 == values_view(old(c)@),
            c@.len() == MAX_CHARACTERISTICS,
            read_entries(tv, start as int, c0)
                == read_entries(tv, pos as int, values_view(c@)),
        decreases toks@.len() - pos,
    {
        let ghost cv = values_view(c@);
        proof {
            assert(tv[pos as int] == char_token_view(toks@[pos as int]));
            assert(seq![125u8] =~= word_close());
        }
        if is_char_word(&toks[pos], 125u8) {
            proof {
                assert(read_entries(tv, pos as int, cv) == Ok::<Seq<CharValue>, CharScriptError>(cv));
            }
            return Ok(());
        }
        let index = match &toks[pos] {
            Token::Number(i, _, fl) => {
                if *fl {
                    return Err(CharScriptError::NotAnIndex);
                }
                *i
            },
            _ => {
                return Err(CharScriptError::NotAnIndex);
            },
        };
        if index < 0 || index >= MAX_CHARACTERISTICS {
            return Err(CharScriptError::IndexOutOfRange);
        }
        let set = match &c[index as usize] {
            bot_characteristic_s::Unset => false,
            _ => true,
        };
        proof {
            assert(cv[index as int] == char_value_view(c@[index as int]));
        }
        if set {
            return Err(CharScriptError::AlreadyInitialized);
        }
        if pos + 1 >= toks.len() {
            return Err(CharScriptError::MissingValue);
        }
        proof {
            assert(tv[pos as int + 1] == char_token_view(toks@[pos as int + 1]));
        }
        let v = match &toks[pos + 1] {
            Token::Number(i, f, fl) => if *fl { bot_characteristic_s::Float(*f) } else { bot_characteristic_s::Integer(*i) },
            Token::Str(s) => bot_characteristic_s::String(zcopy(s)),
            Token::Other(_) => {
                return Err(CharScriptError::BadValue);
            },
        };
        let ghost vv = char_value_view(v);
        c.set(index as usize, v);
        proof {
            assert(value_of(tv[pos as int + 1]) == Some(vv));
            assert(values_view(c@) =~= cv.update(index as int, vv));
        }
        pos = pos + 2;
    }
    proof {
        let cv = values_view(c@);
        assert(read_entries(tv, pos as int, cv) == Ok::<Seq<CharValue>, CharScriptError>(cv));
    }
    Ok(())
}

/// Reads a bot character from the tokens of its file
/// (`BotLoadCharacterFromFile`): every definition is a block
/// `skill <number> { ... }`; the first block of skill `skill` (of any
/// skill when `skill` is negative) gives the characteristics, as pairs of
/// an integer index and an integer, float or string value, each index set
/// once; the blocks before it are skipped, and what follows it is not
/// read.  The block may end at the end of the file.  The result is the
/// character, with the file name and no float skill, and the skill number,
/// which the caller turns into the float skill.
pub fn BotLoadCharacterFromFile(charfile: &Vec<u8>, skill: i32, toks: &Vec<Token>)
    -> (r: Result<(bot_character_s, i32), CharScriptError>)
    ensures
        ({
            let tv = tokens_view(toks@);
            match read_character(tv, 0, skill) {
                Err(e) => r == Err::<(bot_character_s, i32), CharScriptError>(e),
                Ok((number, cs)) => r matches Ok((ch, n)) && n == number && ch.filename@ == charfile@
                    && ch.skill == 0
                    && values_view(ch.c@) == cs,
            }
        }),
{
    let ghost tv = tokens_view(toks@);
    let mut pos: usize = 0;
    while pos < toks.len()
        invariant
            tv == tokens_view(toks@),
            read_character(tv, 0, skill) == read_character(tv, pos as int, skill),
        decreases toks@.len() - pos,
    {
        proof {
            assert(tv[pos as int] == char_token_view(toks@[pos as int]));
            assert(seq![115u8, 107u8, 105u8, 108u8, 108u8] =~= word_skill());
            assert(seq![123u8] =~= word_open());
        }
        if !is_skill_word(&toks[pos]) {
            return Err(CharScriptError::UnknownDefinition);
        }
        if pos + 1 >= toks.len() {
            return Err(CharScriptError::MissingSkillNumber);
        }
        proof {
            assert(tv[pos as int + 1] == char_token_view(toks@[pos as int + 1]));
        }
        let number = match &toks[pos + 1] {
            Token::Number(i, _, _) => *i,
            _ => {
                return Err(CharScriptError::MissingSkillNumber);
            },
        };
        if pos + 2 >= toks.len() {
            return Err(CharScriptError::MissingBrace);
        }
        proof {
            assert(tv[pos as int + 2] == char_token_view(toks@[pos as int + 2]));
        }
        if !is_char_word(&toks[pos + 2], 123u8) {
            return Err(CharScriptError::MissingBrace);
        }
        if skill < 0 || number == skill {
            let mut c: Vec<bot_characteristic_s> = Vec::new();
            while c.len() < MAX_CHARACTERISTICS as usize
                invariant
                    c@.len() <= MAX_CHARACTERISTICS,
                    forall|k: int| 0 <= k < c@.len() ==> #[trigger] c@[k] == bot_characteristic_s::Unset,
                decreases MAX_CHARACTERISTICS - c@.len(),
            {
                c.push(bot_characteristic_s::Unset);
            }
            proof {
                assert(values_view(c@) =~= unset_all());
            }
            match read_entry_tokens(toks, pos + 3, &mut c, Ghost(tv)) {
                Ok(()) => {
                    let filename = copy_bytes(charfile);
                    return Ok((bot_character_s { filename: filename, skill: 0, c: c }, number));
                },
                Err(e) => {
                    return Err(e);
                },
            }
        }
        match skip_tokens(toks, pos + 3, Ghost(tv)) {
            None => {
                return Err(CharScriptError::UnclosedBlock);
            },
            Some(p) => {
                proof {
                    lemma_skip_end(tv, pos as int + 3, 1);
                    assert(read_character(tv, pos as int, skill) == read_character(tv, p as int, skill));
                }
                pos = p;
            },
        }
    }
    Err(CharScriptError::NoCharacter)
}

} // verus!
