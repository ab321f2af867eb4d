//! A weight configuration, read from the script tokens of its file
//! (`ReadWeightConfig`): weights `weight "<name>"` whose body is `return
//! <value>;`, `return balance(<weight>, <min>, <max>);` or a `switch`
//! on an inventory entry with `case <value>:` and `default:` cases, each
//! again a return or a switch, optionally in braces.
use vstd::prelude::*;
use crate::charscript::{char_token_view, is_char_word, is_word, tokens_view, zcopy, Token, TokenView};
use crate::weights::{fuzzyseperator_s, weight_s, weightconfig_s};

verus! {

/// A separator whose weight lies between a minimum and a maximum.
pub const WT_BALANCE: i32 = 1;
/// The value of a `default` case.
pub const MAX_INVENTORYVALUE: i32 = 999999;
/// The most weights a configuration holds.
pub const MAX_WEIGHTS: usize = 128;

pub open spec fn word_balance() -> Seq<u8> { seq![98u8, 97u8, 108u8, 97u8, 110u8, 99u8, 101u8] }
pub open spec fn word_return() -> Seq<u8> { seq![114u8, 101u8, 116u8, 117u8, 114u8, 110u8] }
pub open spec fn word_switch() -> Seq<u8> { seq![115u8, 119u8, 105u8, 116u8, 99u8, 104u8] }
pub open spec fn word_case() -> Seq<u8> { seq![99u8, 97u8, 115u8, 101u8] }
pub open spec fn word_default() -> Seq<u8> { seq![100u8, 101u8, 102u8, 97u8, 117u8, 108u8, 116u8] }
pub open spec fn word_weight() -> Seq<u8> { seq![119u8, 101u8, 105u8, 103u8, 104u8, 116u8] }

/// The token at `pos` is the punctuation `c`.
pub open spec fn expect(toks: Seq<TokenView>, pos: int, c: u8) -> bool {
    0 <= pos < toks.len() && is_word(toks[pos], seq![c])
}

/// The token at `pos` is an integer number.
pub open spec fn is_integer(toks: Seq<TokenView>, pos: int) -> bool {
    0 <= pos < toks.len() && (toks[pos] matches TokenView::Number(_, _, fl) && !fl)
}

/// A value at `pos` (`ReadValue`): a number, or `-` and a number (whose
/// value is taken as it is), as a float bit pattern, and the position after
/// it.
pub open spec fn read_value(toks: Seq<TokenView>, pos: int) -> Option<(u32, int)> {
    if pos < 0 || pos >= toks.len() {
        None
    } else if is_word(toks[pos], seq![45u8]) {
        if pos + 1 < toks.len() && toks[pos + 1] is Number {
            Some((toks[pos + 1]->Number_1, pos + 2))
        } else {
            None
        }
    } else if toks[pos] is Number {
        Some((toks[pos]->Number_1, pos + 1))
    } else {
        None
    }
}

/// A returned weight at `pos` (`ReadFuzzyWeight`): its type, weight,
/// minimum and maximum, and the position after its `;`.
pub open spec fn read_weight(toks: Seq<TokenView>, pos: int) -> Option<(i32, u32, u32, u32, int)> {
    if 0 <= pos < toks.len() && is_word(toks[pos], word_balance()) {
        if !expect(toks, pos + 1, 40u8) {
            None
        } else {
            match read_value(toks, pos + 2) {
                None => None,
                Some((w, p1)) => if !expect(toks, p1, 44u8) {
                    None
                } else {
                    match read_value(toks, p1 + 1) {
                        None => None,
                        Some((mn, p2)) => if !expect(toks, p2, 44u8) {
                            None
                        } else {
                            match read_value(toks, p2 + 1) {
                                None => None,
                                Some((mx, p3)) => if !expect(toks, p3, 41u8) || !expect(toks, p3 + 1, 59u8) {
                                    None
                                } else {
                                    Some((WT_BALANCE, w, mn, mx, p3 + 2))
                                },
                            }
                        },
                    }
                },
            }
        }
    } else {
        match read_value(toks, pos) {
            None => None,
            Some((w, p1)) => if !expect(toks, p1, 59u8) { None } else { Some((0i32, w, w, w, p1 + 1)) },
        }
    }
}

/// A new separator of switch `index` for values below `value`.
pub open spec fn new_sep(index: i32, value: i32) -> fuzzyseperator_s {
    fuzzyseperator_s { index, value, type_: 0, weight: 0, minweight: 0, maxweight: 0, child: None, next: None }
}

/// The separators `a` with separator `last`, if any, followed by `n`.
pub open spec fn linked(a: Seq<fuzzyseperator_s>, last: Option<usize>, n: usize) -> Seq<fuzzyseperator_s> {
    match last {
        Some(l) => a.update(l as int, fuzzyseperator_s { next: Some(n), ..a[l as int] }),
        None => a,
    }
}

/// Separator `s` returning the weight read.
pub open spec fn with_weight(s: fuzzyseperator_s, ty: i32, w: u32, mn: u32, mx: u32) -> fuzzyseperator_s {
    fuzzyseperator_s { type_: ty, weight: w, minweight: mn, maxweight: mx, ..s }
}

/// The separators of a switch once its cases are read, the last case at
/// `last`: without a `default` case one is added, with weight zero.
pub open spec fn finish_cases(a: Seq<fuzzyseperator_s>, index: i32, founddef: bool, last: usize) -> Seq<fuzzyseperator_s> {
    if founddef {
        a
    } else {
        linked(a, Some(last), a.len() as usize).push(new_sep(index, MAX_INVENTORYVALUE))
    }
}

/// A switch at `pos` (`ReadFuzzySeperators_r`): `( <integer index> ) {`
/// and its cases; the separators after it is read, added to `a`, its first
/// separator, and the position after its `}`.
pub open spec fn read_switch(toks: Seq<TokenView>, pos: int, a: Seq<fuzzyseperator_s>)
    -> Option<(Seq<fuzzyseperator_s>, usize, int)>
    decreases toks.len() - pos, 1int,
{
    if !expect(toks, pos, 40u8) || !is_integer(toks, pos + 1) || !expect(toks, pos + 2, 41u8)
        || !expect(toks, pos + 3, 123u8) {
        None
    } else {
        read_cases(toks, pos + 4, a, toks[pos + 1]->Number_0, false, 0, None)
    }
}

/// The cases of switch `index` from the case at `tpos` on: `case
/// <integer>:` or `default:` (once), then `return ...` or a switch,
/// optionally in braces, up to the `}` of the switch.  `last` is the
/// separator of the case before, `first` that of the first case.
pub open spec fn read_cases(toks: Seq<TokenView>, tpos: int, a: Seq<fuzzyseperator_s>, index: i32,
    founddef: bool, first: usize, last: Option<usize>) -> Option<(Seq<fuzzyseperator_s>, usize, int)>
    decreases toks.len() - tpos, 0int,
{
    if tpos < 0 || tpos >= toks.len() {
        None
    } else {
        let def = is_word(toks[tpos], word_default());
        if !def && !is_word(toks[tpos], word_case()) {
            None
        } else if def && founddef {
            None
        } else if !def && !is_integer(toks, tpos + 1) {
            None
        } else {
            let value = if def { MAX_INVENTORYVALUE } else { toks[tpos + 1]->Number_0 };
            let p = if def { tpos + 1 } else { tpos + 2 };
            let n = a.len() as usize;
            let a1 = linked(a, last, n).push(new_sep(index, value));
            let first1 = if last is None { n } else { first };
            if !expect(toks, p, 58u8) || p + 1 >= toks.len() {
                None
            } else {
                let newindent = is_word(toks[p + 1], seq![123u8]);
                let u = if newindent { p + 2 } else { p + 1 };
                if u >= toks.len() {
                    None
                } else {
                    let body: Option<(Seq<fuzzyseperator_s>, int)> = if is_word(toks[u], word_return()) {
                        match read_weight(toks, u + 1) {
                            None => None,
                            Some((ty, w, mn, mx, pe)) => Some((a1.update(n as int, with_weight(a1[n as int], ty, w, mn, mx)), pe)),
                        }
                    } else if is_word(toks[u], word_switch()) {
                        match read_switch(toks, u + 1, a1) {
                            None => None,
                            Some((a2, c, pe)) => Some((a2.update(n as int, fuzzyseperator_s { child: Some(c), ..a2[n as int] }), pe)),
                        }
                    } else {
                        None
                    };
                    match body {
                        None => None,
                        Some((a2, pe)) => if newindent && !expect(toks, pe, 125u8) {
                            None
                        } else {
                            let p3 = if newindent { pe + 1 } else { pe };
                            if p3 <= tpos || p3 >= toks.len() {
                                None
                            } else if is_word(toks[p3], seq![125u8]) {
                                Some((finish_cases(a2, index, def || founddef, n), first1, p3 + 1))
                            } else {
                                read_cases(toks, p3, a2, index, def || founddef, first1, Some(n))
                            }
                        },
                    }
                }
            }
        }
    }
}

/// The names and first separators of weights.
pub open spec fn weights_view(ws: Seq<weight_s>) -> Seq<(Seq<u8>, Option<usize>)> {
    ws.map_values(|w: weight_s| (w.name@, w.firstseperator))
}

/// The weights from position `pos` on (`ReadWeightConfig`), the
/// separators `a` and weights `ws` read before: each `weight "<name>"`
/// and a switch or `return ...`, optionally in braces.  At `MAX_WEIGHTS`
/// weights the reading stops, keeping them.
pub open spec fn read_weights(toks: Seq<TokenView>, pos: int, a: Seq<fuzzyseperator_s>,
    ws: Seq<(Seq<u8>, Option<usize>)>) -> Option<(Seq<fuzzyseperator_s>, Seq<(Seq<u8>, Option<usize>)>)>
    decreases toks.len() - pos,
{
    if pos < 0 || pos >= toks.len() {
        Some((a, ws))
    } else if !is_word(toks[pos], word_weight()) {
        None
    } else if ws.len() >= MAX_WEIGHTS {
        Some((a, ws))
    } else if pos + 2 >= toks.len() || !(toks[pos + 1] is Str) {
        None
    } else {
        let name = toks[pos + 1]->Str_0.push(0u8);
        let newindent = is_word(toks[pos + 2], seq![123u8]);
        let u = if newindent { pos + 3 } else { pos + 2 };
        if u >= toks.len() {
            None
        } else {
            let body: Option<(Seq<fuzzyseperator_s>, usize, int)> = if is_word(toks[u], word_switch()) {
                read_switch(toks, u + 1, a)
            } else if is_word(toks[u], word_return()) {
                match read_weight(toks, u + 1) {
                    None => None,
                    Some((ty, w, mn, mx, pe)) => Some((
                        a.push(with_weight(new_sep(0, MAX_INVENTORYVALUE), ty, w, mn, mx)), a.len() as usize, pe)),
                }
            } else {
                None
            };
            match body {
                None => None,
                Some((a2, f, pe)) => if newindent && !expect(toks, pe, 125u8) {
                    None
                } else {
                    let p = if newindent { pe + 1 } else { pe };
                    if p <= pos || p > toks.len() { None } else { read_weights(toks, p, a2, ws.push((name, Some(f)))) }
                },
            }
        }
    }
}

/// A number token's float value.
fn number_float(t: &Token) -> (r: Option<u32>)
    ensures
        match char_token_view(*t) {
            TokenView::Number(_, f, _) => r == Some(f),
            _ => r is None,
        },
{
    match t {
        Token::Number(_, f, _) => Some(*f),
        _ => None,
    }
}

/// Reads a value at `pos` (`ReadValue`).
fn read_value_tok(toks: &Vec<Token>, pos: usize, Ghost(tv): Ghost<Seq<TokenView>>) -> (r: Option<(u32, usize)>)
    requires
        tv == tokens_view(toks@),
    ensures
        match read_value(tv, pos as int) {
            None => r is None,
            Some((v, p)) => r == Some((v, p as usize)) && pos < p <= toks@.len(),
        },
{
    if pos >= toks.len() {
        return None;
    }
    proof {
        assert(tv[pos as int] == char_token_view(toks@[pos as int]));
    }
    if is_char_word(&toks[pos], 45u8) {
        if pos + 1 >= toks.len() {
            return None;
        }
        proof {
            assert(tv[pos as int + 1] == char_token_view(toks@[pos as int + 1]));
        }
        return match number_float(&toks[pos + 1]) {
            Some(f) => Some((f, pos + 2)),
            None => None,
        };
    }
    match number_float(&toks[pos]) {
        Some(f) => Some((f, pos + 1)),
        None => None,
    }
}

/// The token at `pos` is the punctuation `c`.
fn expect_tok(toks: &Vec<Token>, pos: usize, c: u8, Ghost(tv): Ghost<Seq<TokenView>>) -> (r: bool)
    requires
        tv == tokens_view(toks@),
    ensures
        r == expect(tv, pos as int, c),
{
    if pos >= toks.len() {
        return false;
    }
    proof {
        assert(tv[pos as int] == char_token_view(toks@[pos as int]));
    }
    is_char_word(&toks[pos], c)
}

/// Token `t` is the word `w`.
fn is_word_tok(t: &Token, w: &Vec<u8>) -> (r: bool)
    ensures
        r == is_word(char_token_view(*t), w@),
{
    match t {
        Token::Other(s) => {
            if s.len() != w.len() {
                return false;
            }
            let mut i: usize = 0;
            while i < s.len()
                invariant
                    char_token_view(*t) == TokenView::Other(s@),
                    s@.len() == w@.len(),
                    i <= s@.len(),
                    forall|k: int| 0 <= k < i ==> s@[k] == w@[k],
                decreases s@.len() - i,
            {
                if s[i] != w[i] {
                    proof {
                        assert(s@[i as int] != w@[i as int]);
                    }
                    return false;
                }
                i += 1;
            }
            proof {
                assert(s@ =~= w@);
            }
            true
        },
        _ => false,
    }
}

fn w_balance() -> (v: Vec<u8>)
    ensures
        v@ == word_balance(),
{
    let mut v: Vec<u8> = Vec::new();
    v.push(98); v.push(97); v.push(108); v.push(97); v.push(110); v.push(99); v.push(101);
    proof { assert(v@ =~= word_balance()); }
    v
}

fn w_return() -> (v: Vec<u8>)
    ensures
        v@ == word_return(),
{
    let mut v: Vec<u8> = Vec::new();
    v.push(114); v.push(101); v.push(116); v.push(117); v.push(114); v.push(110);
    proof { assert(v@ =~= word_return()); }
    v
}

fn w_switch() -> (v: Vec<u8>)
    ensures
        v@ == word_switch(),
{
    let mut v: Vec<u8> = Vec::new();
    v.push(115); v.push(119); v.push(105); v.push(116); v.push(99); v.push(104);
    proof { assert(v@ =~= word_switch()); }
    v
}

fn w_case() -> (v: Vec<u8>)
    ensures
        v@ == word_case(),
{
    let mut v: Vec<u8> = Vec::new();
    v.push(99); v.push(97); v.push(115); v.push(101);
    proof { assert(v@ =~= word_case()); }
    v
}

fn w_default() -> (v: Vec<u8>)
    ensures
        v@ == word_default(),
{
    let mut v: Vec<u8> = Vec::new();
    v.push(100); v.push(101); v.push(102); v.push(97); v.push(117); v.push(108); v.push(116);
    proof { assert(v@ =~= word_default()); }
    v
}

fn w_weight() -> (v: Vec<u8>)
    ensures
        v@ == word_weight(),
{
    let mut v: Vec<u8> = Vec::new();
    v.push(119); v.push(101); v.push(105); v.push(103); v.push(104); v.push(116);
    proof { assert(v@ =~= word_weight()); }
    v
}

/// Reads a returned weight at `pos` (`ReadFuzzyWeight`).
fn read_weight_tok(toks: &Vec<Token>, pos: usize, Ghost(tv): Ghost<Seq<TokenView>>)
    -> (r: Option<(i32, u32, u32, u32, usize)>)
    requires
        tv == tokens_view(toks@),
    ensures
        match read_weight(tv, pos as int) {
            None => r is None,
            Some((ty, w, mn, mx, p)) => r == Some((ty, w, mn, mx, p as usize)) && pos < p <= toks@.len(),
        },
{
    let balance = if pos < toks.len() {
        proof {
            assert(tv[pos as int] == char_token_view(toks@[pos as int]));
        }
        is_word_tok(&toks[pos], &w_balance())
    } else {
        false
    };
    if balance {
        if !expect_tok(toks, pos + 1, 40u8, Ghost(tv)) {
            return None;
        }
        let (w, p1) = match read_value_tok(toks, pos + 2, Ghost(tv)) {
            Some(x) => x,
            None => { return None; },
        };
        if !expect_tok(toks, p1, 44u8, Ghost(tv)) {
            return None;
        }
        let (mn, p2) = match read_value_tok(toks, p1 + 1, Ghost(tv)) {
            Some(x) => x,
            None => { return None; },
        };
        if !expect_tok(toks, p2, 44u8, Ghost(tv)) {
            return None;
        }
        let (mx, p3) = match read_value_tok(toks, p2 + 1, Ghost(tv)) {
            Some(x) => x,
            None => { return None; },
        };
        if !expect_tok(toks, p3, 41u8, Ghost(tv)) {
            return None;
        }
        if p3 + 1 >= toks.len() || !expect_tok(toks, p3 + 1, 59u8, Ghost(tv)) {
            return None;
        }
        Some((WT_BALANCE, w, mn, mx, p3 + 2))
    } else {
        let (w, p1) = match read_value_tok(toks, pos, Ghost(tv)) {
            Some(x) => x,
            None => { return None; },
        };
        if !expect_tok(toks, p1, 59u8, Ghost(tv)) {
            return None;
        }
        Some((0, w, w, w, p1 + 1))
    }
}

/// A new separator of switch `index` for values below `value`.
fn make_sep(index: i32, value: i32) -> (s: fuzzyseperator_s)
    ensures
        s == new_sep(index, value),
{
    fuzzyseperator_s { index, value, type_: 0, weight: 0, minweight: 0, maxweight: 0, child: None, next: None }
}

/// The integer value of an integer token.
fn integer_of(t: &Token) -> (r: Option<i32>)
    ensures
        match char_token_view(*t) {
            TokenView::Number(i, _, fl) => if fl { r is None } else { r == Some(i) },
            _ => r is None,
        },
{
    match t {
        Token::Number(i, _, fl) => if *fl { None } else { Some(*i) },
        _ => None,
    }
}

/// Reads a switch at `pos` into `arena` (`ReadFuzzySeperators_r`): gives
/// its first separator and the position after it.
fn read_switch_tok(toks: &Vec<Token>, pos: usize, arena: &mut Vec<fuzzyseperator_s>,
    Ghost(tv): Ghost<Seq<TokenView>>) -> (r: Option<(usize, usize)>)
    requires
        tv == tokens_view(toks@),
        pos <= toks@.len(),
    ensures
        match read_switch(tv, pos as int, old(arena)@) {
            None => r is None,
            Some((a, f, p)) => r == Some((f, p as usize)) && final(arena)@ == a && pos < p <= toks@.len()
                && a.len() > old(arena)@.len(),
        },
    decreases toks@.len() - pos,
{
    let ghost a0 = arena@;
    proof {
        assert(tv.len() == toks@.len());
    }
    let open = expect_tok(toks, pos, 40u8, Ghost(tv));
    if !open {
        return None;
    }
    assert(expect(tv, pos as int, 40u8));
    assert(pos < toks.len());
    if pos + 1 >= toks.len() {
        return None;
    }
    proof {
        assert(tv[pos as int + 1] == char_token_view(toks@[pos as int + 1]));
    }
    let index = match integer_of(&toks[pos + 1]) {
        Some(i) => i,
        None => { return None; },
    };
    if !expect_tok(toks, pos + 2, 41u8, Ghost(tv)) || !expect_tok(toks, pos + 3, 123u8, Ghost(tv)) {
        return None;
    }
    let mut tpos: usize = pos + 4;
    let mut founddef = false;
    let mut first: usize = 0;
    let mut last: Option<usize> = None;
    loop
        invariant
            tv == tokens_view(toks@),
            a0 == old(arena)@,
            pos < tpos,
            read_switch(tv, pos as int, a0) == read_cases(tv, tpos as int, arena@, index, founddef, first, last),
            arena@.len() >= a0.len(),
            last matches Some(l) ==> l < arena@.len() && arena@.len() > a0.len(),
        decreases toks@.len() - tpos,
    {
        if tpos >= toks.len() {
            return None;
        }
        proof {
            assert(tv[tpos as int] == char_token_view(toks@[tpos as int]));
        }
        let def = is_word_tok(&toks[tpos], &w_default());
        if !def && !is_word_tok(&toks[tpos], &w_case()) {
            return None;
        }
        if def && founddef {
            return None;
        }
        let value: i32;
        let p: usize;
        if def {
            value = MAX_INVENTORYVALUE;
            p = tpos + 1;
        } else {
            if tpos + 1 >= toks.len() {
                return None;
            }
            proof {
                assert(tv[tpos as int + 1] == char_token_view(toks@[tpos as int + 1]));
            }
            value = match integer_of(&toks[tpos + 1]) {
                Some(i) => i,
                None => { return None; },
            };
            p = tpos + 2;
        }
        let ghost abefore = arena@;
        let n = arena.len();
        match last {
            Some(l) => {
                let mut sl = arena[l];
                sl.next = Some(n);
                arena.set(l, sl);
            },
            None => {},
        }
        arena.push(make_sep(index, value));
        let ghost a1 = arena@;
        proof {
            assert(a1 =~= linked(abefore, last, n).push(new_sep(index, value)));
        }
        let first1 = if last.is_none() { n } else { first };
        if !expect_tok(toks, p, 58u8, Ghost(tv)) || p + 1 >= toks.len() {
            return None;
        }
        proof {
            assert(tv[p as int + 1] == char_token_view(toks@[p as int + 1]));
        }
        let newindent = is_char_word(&toks[p + 1], 123u8);
        let u = if newindent { p + 2 } else { p + 1 };
        if u >= toks.len() {
            return None;
        }
        proof {
            assert(tv[u as int] == char_token_view(toks@[u as int]));
        }
        let pe: usize;
        let ghost a2: Seq<fuzzyseperator_s>;
        if is_word_tok(&toks[u], &w_return()) {
            match read_weight_tok(toks, u + 1, Ghost(tv)) {
                None => { return None; },
                Some((ty, w, mn, mx, e)) => {
                    let mut sn = arena[n];
                    sn.type_ = ty;
                    sn.weight = w;
                    sn.minweight = mn;
                    sn.maxweight = mx;
                    arena.set(n, sn);
                    pe = e;
                    proof {
                        a2 = arena@;
                        assert(a2 == a1.update(n as int, with_weight(a1[n as int], ty, w, mn, mx)));
                    }
                },
            }
        } else if is_word_tok(&toks[u], &w_switch()) {
            match read_switch_tok(toks, u + 1, arena, Ghost(tv)) {
                None => { return None; },
                Some((c, e)) => {
                    let mut sn = arena[n];
                    sn.child = Some(c);
                    arena.set(n, sn);
                    pe = e;
                    proof {
                        a2 = arena@;
                    }
                },
            }
        } else {
            return None;
        }
        let p3: usize;
        if newindent {
            if !expect_tok(toks, pe, 125u8, Ghost(tv)) {
                return None;
            }
            p3 = pe + 1;
        } else {
            p3 = pe;
        }
        if p3 >= toks.len() {
            return None;
        }
        proof {
            assert(tv[p3 as int] == char_token_view(toks@[p3 as int]));
        }
        let fd = def || founddef;
        if is_char_word(&toks[p3], 125u8) {
            if !fd {
                let m = arena.len();
                let mut sn = arena[n];
                sn.next = Some(m);
                arena.set(n, sn);
                arena.push(make_sep(index, MAX_INVENTORYVALUE));
                proof {
                    assert(arena@ =~= finish_cases(a2, index, fd, n));
                }
            }
            return Some((first1, p3 + 1));
        }
        founddef = fd;
        first = first1;
        last = Some(n);
        tpos = p3;
    }
}

/// Reads a weight configuration from the tokens of its file
/// (`ReadWeightConfig`): every definition is `weight "<name>"` followed by
/// a switch (`ReadFuzzySeperators_r`) or `return` and a weight
/// (`ReadFuzzyWeight`), optionally in braces.  At `MAX_WEIGHTS` weights
/// the reading stops and keeps them; any other token or a malformed
/// definition refuses the file.  The separators are kept in the order they
/// were read, each case linked to the next and to its switch.
pub fn ReadWeightConfig(toks: &Vec<Token>) -> (r: Option<weightconfig_s>)
    ensures
        match read_weights(tokens_view(toks@), 0, Seq::empty(), Seq::empty()) {
            None => r is None,
            Some((a, ws)) => r matches Some(c) && c.seperators@ == a && weights_view(c.weights@) == ws,
        },
{
    let ghost tv = tokens_view(toks@);
    proof {
        assert(tv.len() == toks@.len());
    }
    let mut arena: Vec<fuzzyseperator_s> = Vec::new();
    let mut weights: Vec<weight_s> = Vec::new();
    let mut pos: usize = 0;
    proof {
        assert(weights_view(weights@) =~= Seq::<(Seq<u8>, Option<usize>)>::empty());
    }
    while pos < toks.len()
        invariant
            tv == tokens_view(toks@),
            tv.len() == toks@.len(),
            read_weights(tv, 0, Seq::empty(), Seq::empty()) == read_weights(tv, pos as int, arena@, weights_view(weights@)),
        decreases toks@.len() - pos,
    {
        proof {
            assert(tv[pos as int] == char_token_view(toks@[pos as int]));
        }
        if !is_word_tok(&toks[pos], &w_weight()) {
            return None;
        }
        if weights.len() >= MAX_WEIGHTS {
            return Some(weightconfig_s { weights: weights, seperators: arena });
        }
        if toks.len() - pos <= 2 {
            return None;
        }
        proof {
            assert(tv[pos as int + 1] == char_token_view(toks@[pos as int + 1]));
            assert(tv[pos as int + 2] == char_token_view(toks@[pos as int + 2]));
        }
        let name = match &toks[pos + 1] {
            Token::Str(s) => zcopy(s),
            _ => { return None; },
        };
        let newindent = is_char_word(&toks[pos + 2], 123u8);
        let u = if newindent { pos + 3 } else { pos + 2 };
        if u >= toks.len() {
            return None;
        }
        proof {
            assert(tv[u as int] == char_token_view(toks@[u as int]));
        }
        let f: usize;
        let pe: usize;
        if is_word_tok(&toks[u], &w_switch()) {
            match read_switch_tok(toks, u + 1, &mut arena, Ghost(tv)) {
                None => { return None; },
                Some((first, e)) => {
                    f = first;
                    pe = e;
                },
            }
        } else if is_word_tok(&toks[u], &w_return()) {
            match read_weight_tok(toks, u + 1, Ghost(tv)) {
                None => { return None; },
                Some((ty, w, mn, mx, e)) => {
                    f = arena.len();
                    let mut sn = make_sep(0, MAX_INVENTORYVALUE);
                    sn.type_ = ty;
                    sn.weight = w;
                    sn.minweight = mn;
                    sn.maxweight = mx;
                    arena.push(sn);
                    pe = e;
                },
            }
        } else {
            return None;
        }
        let p: usize;
        if newindent {
            if !expect_tok(toks, pe, 125u8, Ghost(tv)) {
                return None;
            }
            p = pe + 1;
        } else {
            p = pe;
        }
        let ghost wv = weights_view(weights@);
        weights.push(weight_s { name: name, firstseperator: Some(f) });
        proof {
            assert(weights_view(weights@) =~= wv.push((tv[pos as int + 1]->Str_0.push(0u8), Some(f))));
        }
        pos = p;
    }
    Some(weightconfig_s { weights: weights, seperators: arena })
}

} // verus!
