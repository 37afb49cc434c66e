//! The reader: a tokenizer that splits source text into tokens, and a
//! recursive-descent parser that turns the token stream into a value
//! tree. Reading is pure: text in, value (or reader error) out.
use vstd::prelude::*;

use crate::text::{is_int_token, int_token_val, parse_i64, string_of, subvec};
use crate::types::{
    as_hashable, is_hashable, view_strings, FnV, HashableV, MalFn, MalHashable, MalType, ValV,
};

verus! {

/// Separator characters: whitespace and commas.
pub open spec fn is_ws(c: char) -> bool {
    c == ' ' || c == '\t' || c == '\n' || c == '\r' || c == '\u{b}' || c == '\u{c}' || c == ','
}

/// Single-character tokens.
pub open spec fn is_special(c: char) -> bool {
    c == '[' || c == ']' || c == '{' || c == '}' || c == '(' || c == ')' || c == '\'' || c == '`'
        || c == '~' || c == '^' || c == '@'
}

/// Characters an atom token may contain.
pub open spec fn is_atom_char(c: char) -> bool {
    !is_ws(c) && c != '[' && c != ']' && c != '{' && c != '}' && c != '(' && c != ')' && c != '\''
        && c != '"' && c != '`' && c != ';'
}

/// Where a string token ends, scanning from just after the opening
/// quote: escape pairs are skipped, an unescaped quote closes the
/// token, and end of input (or a lone trailing backslash) leaves it
/// unterminated.
pub open spec fn string_token_end(s: Seq<char>, i: int) -> int
    decreases s.len() - i,
{
    if i < 0 || i >= s.len() {
        i
    } else if s[i] == '"' {
        i + 1
    } else if s[i] == '\\' {
        if i + 1 < s.len() {
            string_token_end(s, i + 2)
        } else {
            i
        }
    } else {
        string_token_end(s, i + 1)
    }
}

/// Where a comment ends: at the next newline or end of input.
pub open spec fn comment_end(s: Seq<char>, i: int) -> int
    decreases s.len() - i,
{
    if 0 <= i < s.len() && s[i] != '\n' {
        comment_end(s, i + 1)
    } else {
        i
    }
}

/// Where an atom token ends: the maximal run of atom characters.
pub open spec fn atom_end(s: Seq<char>, i: int) -> int
    decreases s.len() - i,
{
    if 0 <= i < s.len() && is_atom_char(s[i]) {
        atom_end(s, i + 1)
    } else {
        i
    }
}

/// The token stream of the source text from position `i` on: the
/// two-character splice marker, single special characters, quoted
/// strings (possibly unterminated), and maximal atom runs; separators
/// are skipped and comments are dropped.
pub open spec fn tokenize_spec(s: Seq<char>, i: int) -> Seq<Seq<char>>
    decreases s.len() - i,
{
    if i < 0 || i >= s.len() {
        Seq::empty()
    } else if is_ws(s[i]) {
        tokenize_spec(s, i + 1)
    } else if s[i] == '~' && i + 1 < s.len() && s[i + 1] == '@' {
        seq![seq!['~', '@']] + tokenize_spec(s, i + 2)
    } else if is_special(s[i]) {
        seq![seq![s[i]]] + tokenize_spec(s, i + 1)
    } else if s[i] == '"' {
        let e0 = string_token_end(s, i + 1);
        let e = if i + 1 <= e0 <= s.len() {
            e0
        } else {
            i + 1
        };
        seq![s.subrange(i, e)] + tokenize_spec(s, e)
    } else if s[i] == ';' {
        let e0 = comment_end(s, i + 1);
        let e = if i + 1 <= e0 <= s.len() {
            e0
        } else {
            i + 1
        };
        tokenize_spec(s, e)
    } else {
        let e0 = atom_end(s, i + 1);
        let e = if i + 1 <= e0 <= s.len() {
            e0
        } else {
            i + 1
        };
        seq![s.subrange(i, e)] + tokenize_spec(s, e)
    }
}

/// The views of a vector of tokens.
pub open spec fn tok_views(toks: Seq<Vec<char>>) -> Seq<Seq<char>> {
    toks.map_values(|t: Vec<char>| t@)
}

fn is_ws_x(c: char) -> (r: bool)
    ensures
        r == is_ws(c),
{
    c == ' ' || c == '\t' || c == '\n' || c == '\r' || c == '\u{b}' || c == '\u{c}' || c == ','
}

fn is_special_x(c: char) -> (r: bool)
    ensures
        r == is_special(c),
{
    c == '[' || c == ']' || c == '{' || c == '}' || c == '(' || c == ')' || c == '\'' || c == '`'
        || c == '~' || c == '^' || c == '@'
}

fn is_atom_char_x(c: char) -> (r: bool)
    ensures
        r == is_atom_char(c),
{
    !is_ws_x(c) && c != '[' && c != ']' && c != '{' && c != '}' && c != '(' && c != ')'
        && c != '\'' && c != '"' && c != '`' && c != ';'
}

/// Splits source text into tokens.
pub fn tokenize(src: &Vec<char>) -> (toks: Vec<Vec<char>>)
    ensures
        tok_views(toks@) == tokenize_spec(src@, 0),
{
    let ghost s = src@;
    let len: usize = src.len();
    let mut toks: Vec<Vec<char>> = Vec::new();
    let mut i: usize = 0;
    proof {
        assert(tok_views(toks@) + tokenize_spec(s, 0) =~= tokenize_spec(s, 0));
    }
    while i < len
        invariant
            i <= len,
            len == s.len(),
            src@ == s,
            tokenize_spec(s, 0) == tok_views(toks@) + tokenize_spec(s, i as int),
        decreases len - i,
    {
        let c = src[i];
        if is_ws_x(c) {
            i += 1;
        } else if c == '~' && i + 1 < len && src[i + 1] == '@' {
            let mut t: Vec<char> = Vec::new();
            t.push('~');
            t.push('@');
            assert(t@ =~= seq!['~', '@']);
            toks.push(t);
            proof {
                assert(tok_views(toks@) =~= tok_views(toks@.drop_last()) + seq![seq!['~', '@']]);
                assert(tok_views(toks@) + tokenize_spec(s, i + 2) =~= (tok_views(
                    toks@.drop_last(),
                ) + tokenize_spec(s, i as int)));
            }
            i += 2;
        } else if is_special_x(c) {
            let mut t: Vec<char> = Vec::new();
            t.push(c);
            assert(t@ =~= seq![c]);
            toks.push(t);
            proof {
                assert(tok_views(toks@) =~= tok_views(toks@.drop_last()) + seq![seq![c]]);
                assert(tok_views(toks@) + tokenize_spec(s, i + 1) =~= (tok_views(
                    toks@.drop_last(),
                ) + tokenize_spec(s, i as int)));
            }
            i += 1;
        } else if c == '"' {
            let mut j: usize = i + 1;
            let mut end: usize = len;
            let mut done: bool = false;
            while !done && j < len
                invariant
                    i + 1 <= j <= len,
                    len == s.len(),
                    src@ == s,
                    !done ==> string_token_end(s, i + 1) == string_token_end(s, j as int),
                    done ==> i + 1 <= end <= len && string_token_end(s, i + 1) == end,
                decreases len - j, if done {
                    0int
                } else {
                    1int
                },
            {
                let d = src[j];
                if d == '"' {
                    end = j + 1;
                    done = true;
                } else if d == '\\' {
                    if j + 1 < len {
                        j += 2;
                    } else {
                        end = j;
                        done = true;
                    }
                } else {
                    j += 1;
                }
            }
            if !done {
                end = len;
                assert(string_token_end(s, i + 1) == len);
            }
            let t = subvec(src, i, end);
            toks.push(t);
            proof {
                assert(tok_views(toks@) =~= tok_views(toks@.drop_last()) + seq![
                    s.subrange(i as int, end as int),
                ]);
                assert(tok_views(toks@) + tokenize_spec(s, end as int) =~= (tok_views(
                    toks@.drop_last(),
                ) + tokenize_spec(s, i as int)));
            }
            i = end;
        } else if c == ';' {
            let mut j: usize = i + 1;
            while j < len && src[j] != '\n'
                invariant
                    i + 1 <= j <= len,
                    len == s.len(),
                    src@ == s,
                    comment_end(s, i + 1) == comment_end(s, j as int),
                decreases len - j,
            {
                j += 1;
            }
            assert(comment_end(s, i + 1) == j);
            i = j;
        } else {
            assert(is_atom_char(s[i as int]));
            let mut j: usize = i + 1;
            while j < len && is_atom_char_x(src[j])
                invariant
                    i + 1 <= j <= len,
                    len == s.len(),
                    src@ == s,
                    atom_end(s, i + 1) == atom_end(s, j as int),
                decreases len - j,
            {
                j += 1;
            }
            assert(atom_end(s, i + 1) == j);
            let t = subvec(src, i, j);
            toks.push(t);
            proof {
                assert(tok_views(toks@) =~= tok_views(toks@.drop_last()) + seq![
                    s.subrange(i as int, j as int),
                ]);
                assert(tok_views(toks@) + tokenize_spec(s, j as int) =~= (tok_views(
                    toks@.drop_last(),
                ) + tokenize_spec(s, i as int)));
            }
            i = j;
        }
    }
    proof {
        assert(tokenize_spec(s, len as int) =~= Seq::<Seq<char>>::empty());
        assert(tok_views(toks@) + tokenize_spec(s, len as int) =~= tok_views(toks@));
    }
    toks
}

/// What reading can fail with.
#[derive(Debug, Clone, Copy, PartialEq, Eq, Structural)]
pub enum ReaderError {
    /// End of input before the given closing delimiter.
    UnmatchedDelimiter(char),
    /// A string token with no well-formed closing quote.
    UnterminatedString,
    /// A map literal with an odd number of forms.
    OddMapArity,
    /// A map key outside the hashable subset.
    NotHashable,
    /// A variadic marker anywhere but before the last parameter.
    VariadicPosition,
    /// A non-symbol where a parameter name is required.
    ParamNotSymbol,
    /// A parameter list that is not a list or vector.
    ParamsNotList,
}

/// The result of parsing one form: a value and the position after it,
/// or a reader error.
pub enum Parsed {
    Done(ValV, int),
    Bad(ReaderError),
}

/// The result of collecting forms up to a closing delimiter.
pub enum ParsedItems {
    Done(Seq<ValV>, int),
    Bad(ReaderError),
}

/// The run of backslashes ending at position `j`, never counting
/// position 0 (the opening quote of a string token).
pub open spec fn bs_run(t: Seq<char>, j: int) -> int
    decreases j,
{
    if j <= 0 {
        0
    } else if t[j] == '\\' {
        1 + bs_run(t, j - 1)
    } else {
        0
    }
}

/// The value a single atom token denotes: the three literals, the empty
/// token, an integer, a string (escapes kept raw), a keyword, or a
/// symbol; a malformed string token is the one failure.
pub open spec fn atom_val(t: Seq<char>) -> Result<ValV, ReaderError> {
    if t == seq!['n', 'i', 'l'] {
        Ok(ValV::Nil)
    } else if t == seq!['f', 'a', 'l', 's', 'e'] {
        Ok(ValV::Bool(false))
    } else if t == seq!['t', 'r', 'u', 'e'] {
        Ok(ValV::Bool(true))
    } else if t.len() == 0 {
        Ok(ValV::Nil)
    } else if is_int_token(t) {
        Ok(ValV::Int(int_token_val(t) as i64))
    } else if t[0] == '"' {
        if t.len() < 2 || t.last() != '"' || bs_run(t, t.len() - 2) % 2 != 0 {
            Err(ReaderError::UnterminatedString)
        } else {
            Ok(ValV::Str(t.subrange(1, t.len() - 1)))
        }
    } else if t[0] == ':' {
        Ok(ValV::KeyWord(t))
    } else {
        Ok(ValV::Symbol(t))
    }
}

/// Inserts a key into an association list, replacing the entry of an
/// equal key in place or appending a new one.
pub open spec fn dict_put(ps: Seq<(HashableV, ValV)>, k: HashableV, v: ValV) -> Seq<
    (HashableV, ValV),
>
    decreases ps.len(),
{
    if ps.len() == 0 {
        seq![(k, v)]
    } else if ps[0].0 == k {
        seq![(k, v)] + ps.drop_first()
    } else {
        seq![ps[0]] + dict_put(ps.drop_first(), k, v)
    }
}

/// Folds collected forms pairwise into map entries, converting each key
/// to the hashable subset; a non-hashable key is the one failure.
pub open spec fn dict_build(items: Seq<ValV>, i: int, acc: Seq<(HashableV, ValV)>) -> Result<
    Seq<(HashableV, ValV)>,
    ReaderError,
>
    decreases items.len() - i,
{
    if i < 0 || i + 1 >= items.len() {
        Ok(acc)
    } else if !is_hashable(items[i]) {
        Err(ReaderError::NotHashable)
    } else {
        dict_build(items, i + 2, dict_put(acc, as_hashable(items[i]), items[i + 1]))
    }
}

/// Folds a parameter form into parameter names and the variadic flag;
/// the marker `&` must sit just before the last parameter.
pub open spec fn build_params(xs: Seq<ValV>, i: int, acc: Seq<Seq<char>>, variadic: bool) -> Result<
    (Seq<Seq<char>>, bool),
    ReaderError,
>
    decreases xs.len() - i,
{
    if i < 0 || i >= xs.len() {
        Ok((acc, variadic))
    } else {
        match xs[i] {
            ValV::Symbol(s) => if s == seq!['&'] {
                if i != xs.len() - 2 {
                    Err(ReaderError::VariadicPosition)
                } else {
                    build_params(xs, i + 1, acc, true)
                }
            } else {
                build_params(xs, i + 1, acc.push(s), variadic)
            },
            _ => Err(ReaderError::ParamNotSymbol),
        }
    }
}

/// Parses one form at `pos`: `(` opens a list (or, when `fn*` follows,
/// a function literal), `[` a vector, `{` a map, and any other token is
/// an atom; an exhausted stream yields nil.
pub open spec fn parse_form(toks: Seq<Seq<char>>, pos: int) -> Parsed
    decreases toks.len() - pos, 0int,
{
    if pos < 0 || pos >= toks.len() {
        Parsed::Done(ValV::Nil, pos)
    } else {
        let t = toks[pos];
        if t == seq!['('] {
            if pos + 1 >= toks.len() {
                Parsed::Bad(ReaderError::UnmatchedDelimiter(')'))
            } else if toks[pos + 1] == seq!['f', 'n', '*'] {
                parse_fn(toks, pos + 2)
            } else {
                match parse_items(toks, pos + 1, ')') {
                    ParsedItems::Done(items, n) => Parsed::Done(ValV::List(items), n),
                    ParsedItems::Bad(e) => Parsed::Bad(e),
                }
            }
        } else if t == seq!['['] {
            match parse_items(toks, pos + 1, ']') {
                ParsedItems::Done(items, n) => Parsed::Done(ValV::Vector(items), n),
                ParsedItems::Bad(e) => Parsed::Bad(e),
            }
        } else if t == seq!['{'] {
            match parse_items(toks, pos + 1, '}') {
                ParsedItems::Done(items, n) => if items.len() % 2 != 0 {
                    Parsed::Bad(ReaderError::OddMapArity)
                } else {
                    match dict_build(items, 0, Seq::empty()) {
                        Ok(ps) => Parsed::Done(ValV::Dict(ps), n),
                        Err(e) => Parsed::Bad(e),
                    }
                },
                ParsedItems::Bad(e) => Parsed::Bad(e),
            }
        } else {
            match atom_val(t) {
                Ok(v) => Parsed::Done(v, pos + 1),
                Err(e) => Parsed::Bad(e),
            }
        }
    }
}

/// Parses a function literal after `(fn*`: a parameter form, a body
/// form, then one token skipped for the closing delimiter. The closure
/// starts with no captured frame.
pub open spec fn parse_fn(toks: Seq<Seq<char>>, pos: int) -> Parsed
    decreases toks.len() - pos, 1int,
{
    match parse_form(toks, pos) {
        Parsed::Bad(e) => Parsed::Bad(e),
        Parsed::Done(params, n1) => {
            let xs = match params {
                ValV::List(xs) => Some(xs),
                ValV::Vector(xs) => Some(xs),
                _ => None,
            };
            match xs {
                None => Parsed::Bad(ReaderError::ParamsNotList),
                Some(xs) => match build_params(xs, 0, Seq::empty(), false) {
                    Err(e) => Parsed::Bad(e),
                    Ok((args, variadic)) => {
                        let n1c = if pos <= n1 <= toks.len() {
                            n1
                        } else {
                            pos
                        };
                        match parse_form(toks, n1c) {
                            Parsed::Bad(e) => Parsed::Bad(e),
                            Parsed::Done(body, n2) => {
                                let n3 = if n2 < toks.len() {
                                    n2 + 1
                                } else {
                                    n2
                                };
                                Parsed::Done(
                                    ValV::Fn(
                                        FnV {
                                            args,
                                            body: Box::new(body),
                                            env: None,
                                            is_variadic: variadic,
                                        },
                                    ),
                                    n3,
                                )
                            },
                        }
                    },
                },
            }
        },
    }
}

/// Collects forms until the closing delimiter; end of input first is an
/// unmatched-delimiter error.
pub open spec fn parse_items(toks: Seq<Seq<char>>, pos: int, closer: char) -> ParsedItems
    decreases toks.len() - pos, 1int,
{
    if pos < 0 || pos >= toks.len() {
        ParsedItems::Bad(ReaderError::UnmatchedDelimiter(closer))
    } else if toks[pos] == seq![closer] {
        ParsedItems::Done(Seq::empty(), pos + 1)
    } else {
        match parse_form(toks, pos) {
            Parsed::Bad(e) => ParsedItems::Bad(e),
            Parsed::Done(v, n) => {
                let nc = if pos < n <= toks.len() {
                    n
                } else {
                    pos + 1
                };
                match parse_items(toks, nc, closer) {
                    ParsedItems::Bad(e) => ParsedItems::Bad(e),
                    ParsedItems::Done(items, n2) => ParsedItems::Done(seq![v] + items, n2),
                }
            },
        }
    }
}

/// What reading source text yields: the first form of its token
/// stream, or the reader error.
pub open spec fn read_spec(s: Seq<char>) -> Result<ValV, ReaderError> {
    match parse_form(tokenize_spec(s, 0), 0) {
        Parsed::Done(v, _) => Ok(v),
        Parsed::Bad(e) => Err(e),
    }
}

/// The message each reader error carries.
pub open spec fn reader_error_msg(e: ReaderError) -> Seq<char> {
    match e {
        ReaderError::UnmatchedDelimiter(c) => "EOF unmatched '"@ + seq![c] + seq!['\''],
        ReaderError::UnterminatedString => "EOF unclosed string."@,
        ReaderError::OddMapArity => "Hash map needs an even number of elements"@,
        ReaderError::NotHashable => "Value is not hashable."@,
        ReaderError::VariadicPosition => "Variadic argument must be the last"@,
        ReaderError::ParamNotSymbol => "Function parameters must be symbols."@,
        ReaderError::ParamsNotList => "Function arguments must list."@,
    }
}

impl ReaderError {
    /// The human-readable message of this error.
    pub fn message(&self) -> (r: String)
        ensures
            r@ == reader_error_msg(*self),
    {
        match self {
            ReaderError::UnmatchedDelimiter(c) => {
                let mut cs = crate::text::chars_of("EOF unmatched '");
                cs.push(*c);
                cs.push('\'');
                let r = string_of(&cs);
                proof {
                    assert(cs@ =~= "EOF unmatched '"@ + seq![*c] + seq!['\'']);
                }
                r
            },
            ReaderError::UnterminatedString => {
                let cs = crate::text::chars_of("EOF unclosed string.");
                string_of(&cs)
            },
            ReaderError::OddMapArity => {
                let cs = crate::text::chars_of("Hash map needs an even number of elements");
                string_of(&cs)
            },
            ReaderError::NotHashable => {
                let cs = crate::text::chars_of("Value is not hashable.");
                string_of(&cs)
            },
            ReaderError::VariadicPosition => {
                let cs = crate::text::chars_of("Variadic argument must be the last");
                string_of(&cs)
            },
            ReaderError::ParamNotSymbol => {
                let cs = crate::text::chars_of("Function parameters must be symbols.");
                string_of(&cs)
            },
            ReaderError::ParamsNotList => {
                let cs = crate::text::chars_of("Function arguments must list.");
                string_of(&cs)
            },
        }
    }
}

/// Parses a single atom token.
pub fn read_atom(t: &Vec<char>) -> (r: Result<MalType, ReaderError>)
    ensures
        match r {
            Ok(v) => atom_val(t@) == Ok::<ValV, ReaderError>(v@),
            Err(e) => atom_val(t@) == Err::<ValV, ReaderError>(e),
        },
{
    let len = t.len();
    if len == 3 && t[0] == 'n' && t[1] == 'i' && t[2] == 'l' {
        assert(t@ =~= seq!['n', 'i', 'l']);
        return Ok(MalType::Nil);
    }
    assert(t@ != seq!['n', 'i', 'l']);
    if len == 5 && t[0] == 'f' && t[1] == 'a' && t[2] == 'l' && t[3] == 's' && t[4] == 'e' {
        assert(t@ =~= seq!['f', 'a', 'l', 's', 'e']);
        return Ok(MalType::Bool(false));
    }
    assert(t@ != seq!['f', 'a', 'l', 's', 'e']);
    if len == 4 && t[0] == 't' && t[1] == 'r' && t[2] == 'u' && t[3] == 'e' {
        assert(t@ =~= seq!['t', 'r', 'u', 'e']);
        return Ok(MalType::Bool(true));
    }
    assert(t@ != seq!['t', 'r', 'u', 'e']);
    if len == 0 {
        return Ok(MalType::Nil);
    }
    match parse_i64(t) {
        Some(i) => {
            assert(i as int == int_token_val(t@));
            return Ok(MalType::Int(i));
        },
        None => {},
    }
    assert(!is_int_token(t@));
    if t[0] == '"' {
        if len < 2 || t[len - 1] != '"' {
            return Err(ReaderError::UnterminatedString);
        }
        let mut count: usize = 0;
        let mut j: usize = len - 2;
        while j > 0 && t[j] == '\\'
            invariant
                j <= len - 2,
                len == t@.len(),
                len >= 2,
                count == len - 2 - j,
                bs_run(t@, len - 2) == count + bs_run(t@, j as int),
            decreases j,
        {
            j -= 1;
            count += 1;
        }
        assert(bs_run(t@, j as int) == 0);
        assert(bs_run(t@, len - 2) == count);
        if count % 2 != 0 {
            return Err(ReaderError::UnterminatedString);
        }
        let body = subvec(t, 1, len - 1);
        let s = string_of(&body);
        return Ok(MalType::String(s));
    }
    if t[0] == ':' {
        let s = string_of(t);
        return Ok(MalType::KeyWord(s));
    }
    let s = string_of(t);
    Ok(MalType::Symbol(s))
}

/// Parses one form starting at `pos`; returns the form (or error) and
/// the position after it.
pub fn read_form(toks: &Vec<Vec<char>>, pos: usize) -> (r: (Result<MalType, ReaderError>, usize))
    requires
        pos <= toks@.len(),
    ensures
        ({
            let sp = parse_form(tok_views(toks@), pos as int);
            match r.0 {
                Ok(v) => sp == Parsed::Done(v@, r.1 as int),
                Err(e) => sp == Parsed::Bad(e),
            }
        }),
        r.1 <= toks@.len(),
        r.0 is Ok && pos < toks@.len() ==> pos < r.1,
        r.0 is Ok && pos >= toks@.len() ==> r.1 == pos,
    decreases toks@.len() - pos, 0int,
{
    let ghost tv = tok_views(toks@);
    let len = toks.len();
    if pos >= len {
        return (Ok(MalType::Nil), pos);
    }
    let t = &toks[pos];
    assert(tv[pos as int] == t@);
    if t.len() == 1 && t[0] == '(' {
        assert(t@ =~= seq!['(']);
        if pos + 1 >= len {
            return (Err(ReaderError::UnmatchedDelimiter(')')), pos);
        }
        let t2 = &toks[pos + 1];
        assert(tv[pos + 1] == t2@);
        if t2.len() == 3 && t2[0] == 'f' && t2[1] == 'n' && t2[2] == '*' {
            assert(t2@ =~= seq!['f', 'n', '*']);
            return read_fn(toks, pos + 2);
        }
        assert(t2@ != seq!['f', 'n', '*']);
        let (res, n) = read_list(toks, pos + 1);
        match res {
            Ok(items) => {
                return (Ok(MalType::List(items)), n);
            },
            Err(e) => {
                return (Err(e), n);
            },
        }
    }
    assert(t@ != seq!['(']);
    if t.len() == 1 && t[0] == '[' {
        assert(t@ =~= seq!['[']);
        let (res, n) = read_vec(toks, pos + 1);
        match res {
            Ok(items) => {
                return (Ok(MalType::Vector(items)), n);
            },
            Err(e) => {
                return (Err(e), n);
            },
        }
    }
    assert(t@ != seq!['[']);
    if t.len() == 1 && t[0] == '{' {
        assert(t@ =~= seq!['{']);
        return read_dict(toks, pos + 1);
    }
    assert(t@ != seq!['{']);
    match read_atom(t) {
        Ok(v) => (Ok(v), pos + 1),
        Err(e) => (Err(e), pos),
    }
}

/// Collects forms until the closing delimiter.
fn read_collection(toks: &Vec<Vec<char>>, pos: usize, closer: char) -> (r: (
    Result<Vec<MalType>, ReaderError>,
    usize,
))
    requires
        pos <= toks@.len(),
    ensures
        ({
            let sp = parse_items(tok_views(toks@), pos as int, closer);
            match r.0 {
                Ok(items) => sp == ParsedItems::Done(crate::types::view_vals(items@), r.1 as int),
                Err(e) => sp == ParsedItems::Bad(e),
            }
        }),
        r.1 <= toks@.len(),
        r.0 is Ok ==> pos < r.1,
    decreases toks@.len() - pos, 1int,
{
    let ghost tv = tok_views(toks@);
    let len = toks.len();
    let mut acc: Vec<MalType> = Vec::new();
    let mut p: usize = pos;
    proof {
        assert(crate::types::view_vals(acc@) =~= Seq::<ValV>::empty());
    }
    loop
        invariant
            pos <= p <= len,
            len == toks@.len(),
            tv == tok_views(toks@),
            ({
                match parse_items(tv, p as int, closer) {
                    ParsedItems::Done(items, n) => parse_items(tv, pos as int, closer)
                        == ParsedItems::Done(crate::types::view_vals(acc@) + items, n),
                    ParsedItems::Bad(e) => parse_items(tv, pos as int, closer)
                        == ParsedItems::Bad(e),
                }
            }),
        decreases len - p,
    {
        if p >= len {
            return (Err(ReaderError::UnmatchedDelimiter(closer)), p);
        }
        let t = &toks[p];
        assert(tv[p as int] == t@);
        if t.len() == 1 && t[0] == closer {
            assert(t@ =~= seq![closer]);
            proof {
                assert(crate::types::view_vals(acc@) + Seq::<ValV>::empty() =~= crate::types::view_vals(acc@));
            }
            return (Ok(acc), p + 1);
        }
        assert(t@ != seq![closer]);
        let (res, np) = read_form(toks, p);
        match res {
            Ok(v) => {
                proof {
                    let items_after = parse_items(tv, np as int, closer);
                    crate::types::lemma_view_vals(acc@);
                }
                let ghost old_acc = acc@;
                acc.push(v);
                proof {
                    assert(acc@.drop_last() =~= old_acc);
                    assert(crate::types::view_vals(acc@) =~= crate::types::view_vals(
                        old_acc,
                    ).push(v@));
                    match parse_items(tv, np as int, closer) {
                        ParsedItems::Done(items, n) => {
                            assert(crate::types::view_vals(old_acc) + (seq![v@] + items)
                                =~= crate::types::view_vals(acc@) + items);
                        },
                        ParsedItems::Bad(e) => {},
                    }
                }
                p = np;
            },
            Err(e) => {
                return (Err(e), p);
            },
        }
    }
}

/// Parses a list after its opening delimiter.
fn read_list(toks: &Vec<Vec<char>>, pos: usize) -> (r: (Result<Vec<MalType>, ReaderError>, usize))
    requires
        pos <= toks@.len(),
    ensures
        ({
            let sp = parse_items(tok_views(toks@), pos as int, ')');
            match r.0 {
                Ok(items) => sp == ParsedItems::Done(crate::types::view_vals(items@), r.1 as int),
                Err(e) => sp == ParsedItems::Bad(e),
            }
        }),
        r.1 <= toks@.len(),
        r.0 is Ok ==> pos < r.1,
    decreases toks@.len() - pos, 2int,
{
    read_collection(toks, pos, ')')
}

proof fn lemma_dict_put_found(ps: Seq<(HashableV, ValV)>, k: HashableV, v: ValV, i: int)
    requires
        0 <= i < ps.len(),
        ps[i].0 == k,
        forall|j: int| 0 <= j < i ==> (#[trigger] ps[j]).0 != k,
    ensures
        dict_put(ps, k, v) == ps.update(i, (k, v)),
    decreases ps.len(),
{
    if i == 0 {
        assert(dict_put(ps, k, v) =~= ps.update(0, (k, v)));
    } else {
        assert(ps.drop_first()[i - 1] == ps[i]);
        assert(forall|j: int| 0 <= j < i - 1 ==> (#[trigger] ps.drop_first()[j]).0 != k);
        lemma_dict_put_found(ps.drop_first(), k, v, i - 1);
        assert(dict_put(ps, k, v) =~= ps.update(i, (k, v)));
    }
}

proof fn lemma_dict_put_missing(ps: Seq<(HashableV, ValV)>, k: HashableV, v: ValV)
    requires
        forall|j: int| 0 <= j < ps.len() ==> (#[trigger] ps[j]).0 != k,
    ensures
        dict_put(ps, k, v) == ps.push((k, v)),
    decreases ps.len(),
{
    if ps.len() == 0 {
        assert(dict_put(ps, k, v) =~= ps.push((k, v)));
    } else {
        lemma_dict_put_missing(ps.drop_first(), k, v);
        assert(dict_put(ps, k, v) =~= ps.push((k, v)));
    }
}

/// Inserts one key-value pair into an association-list map, replacing
/// the entry of an equal key in place.
fn dict_insert(ps: &mut Vec<(MalHashable, MalType)>, k: MalHashable, v: MalType)
    ensures
        crate::types::view_pairs(final(ps)@) == dict_put(
            crate::types::view_pairs(old(ps)@),
            k@,
            v@,
        ),
{
    let ghost pv = crate::types::view_pairs(ps@);
    proof {
        crate::types::lemma_view_pairs(ps@);
    }
    let mut i: usize = 0;
    while i < ps.len()
        invariant
            i <= ps@.len(),
            ps@ == old(ps)@,
            pv == crate::types::view_pairs(ps@),
            pv.len() == ps@.len(),
            forall|j: int|
                0 <= j < ps@.len() ==> #[trigger] pv[j] == (
                crate::types::view_hashable(ps@[j].0),
                crate::types::view_val(ps@[j].1),
                ),
            forall|j: int| 0 <= j < i ==> (#[trigger] pv[j]).0 != k@,
        decreases ps@.len() - i,
    {
        if ps[i].0.key_equal(&k) {
            let ghost old_ps = ps@;
            ps[i] = (k, v);
            proof {
                lemma_dict_put_found(pv, k@, v@, i as int);
                crate::types::lemma_view_pairs(ps@);
                assert(ps@ =~= old_ps.update(i as int, (k, v)));
                assert(crate::types::view_pairs(ps@) =~= pv.update(i as int, (k@, v@)));
            }
            return ;
        }
        i += 1;
    }
    let ghost old_ps = ps@;
    ps.push((k, v));
    proof {
        lemma_dict_put_missing(pv, k@, v@);
        crate::types::lemma_view_pairs(ps@);
        assert(ps@.drop_last() =~= old_ps);
        assert(crate::types::view_pairs(ps@) =~= pv.push((k@, v@)));
    }
}

/// Parses a map after its opening delimiter: collects forms to the
/// closing brace, then folds them pairwise with hashable keys.
fn read_dict(toks: &Vec<Vec<char>>, pos: usize) -> (r: (Result<MalType, ReaderError>, usize))
    requires
        pos <= toks@.len(),
    ensures
        ({
            let sp = ({
                match parse_items(tok_views(toks@), pos as int, '}') {
                    ParsedItems::Done(items, n) => if items.len() % 2 != 0 {
                        Parsed::Bad(ReaderError::OddMapArity)
                    } else {
                        match dict_build(items, 0, Seq::empty()) {
                            Ok(ps) => Parsed::Done(ValV::Dict(ps), n),
                            Err(e) => Parsed::Bad(e),
                        }
                    },
                    ParsedItems::Bad(e) => Parsed::Bad(e),
                }
            });
            match r.0 {
                Ok(v) => sp == Parsed::Done(v@, r.1 as int),
                Err(e) => sp == Parsed::Bad(e),
            }
        }),
        r.1 <= toks@.len(),
        r.0 is Ok ==> pos < r.1,
    decreases toks@.len() - pos, 2int,
{
    let (res, n) = read_collection(toks, pos, '}');
    let items = match res {
        Ok(items) => items,
        Err(e) => {
            return (Err(e), n);
        },
    };
    if items.len() % 2 != 0 {
        proof {
            crate::types::lemma_view_vals(items@);
        }
        return (Err(ReaderError::OddMapArity), n);
    }
    let ghost iv = crate::types::view_vals(items@);
    proof {
        crate::types::lemma_view_vals(items@);
    }
    let mut map: Vec<(MalHashable, MalType)> = Vec::new();
    let mut i: usize = 0;
    proof {
        assert(crate::types::view_pairs(map@) =~= Seq::<(HashableV, ValV)>::empty());
    }
    while i + 1 < items.len()
        invariant
            i <= items@.len(),
            i % 2 == 0,
            items@.len() % 2 == 0,
            iv == crate::types::view_vals(items@),
            iv.len() == items@.len(),
            pos < n <= toks@.len(),
            parse_items(tok_views(toks@), pos as int, '}') == ParsedItems::Done(iv, n as int),
            forall|k: int| 0 <= k < items@.len() ==> #[trigger] iv[k] == (items@[k])@,
            dict_build(iv, 0, Seq::empty()) == dict_build(
                iv,
                i as int,
                crate::types::view_pairs(map@),
            ),
        decreases items@.len() - i,
    {
        let key = match MalHashable::to_hashable(items[i].clone()) {
            Ok(h) => h,
            Err(_) => {
                return (Err(ReaderError::NotHashable), n);
            },
        };
        dict_insert(&mut map, key, items[i + 1].clone());
        i += 2;
    }
    assert(i >= items@.len());
    let d = MalType::Dict(map);
    (Ok(d), n)
}

/// Parses a function literal after `(fn*`.
fn read_fn(toks: &Vec<Vec<char>>, pos: usize) -> (r: (Result<MalType, ReaderError>, usize))
    requires
        pos <= toks@.len(),
    ensures
        ({
            let sp = parse_fn(tok_views(toks@), pos as int);
            match r.0 {
                Ok(v) => sp == Parsed::Done(v@, r.1 as int),
                Err(e) => sp == Parsed::Bad(e),
            }
        }),
        r.1 <= toks@.len(),
        r.0 is Ok ==> pos <= r.1,
    decreases toks@.len() - pos, 1int,
{
    let ghost tv = tok_views(toks@);
    let (pres, n1) = read_form(toks, pos);
    let params = match pres {
        Ok(p) => p,
        Err(e) => {
            return (Err(e), n1);
        },
    };
    let elems = match params {
        MalType::List(xs) => xs,
        MalType::Vector(xs) => xs,
        _ => {
            return (Err(ReaderError::ParamsNotList), n1);
        },
    };
    let ghost ev = crate::types::view_vals(elems@);
    proof {
        crate::types::lemma_view_vals(elems@);
    }
    let mut args: Vec<String> = Vec::new();
    let mut variadic: bool = false;
    let mut i: usize = 0;
    proof {
        assert(view_strings(args@) =~= Seq::<Seq<char>>::empty());
    }
    while i < elems.len()
        invariant
            i <= elems@.len(),
            ev == crate::types::view_vals(elems@),
            ev.len() == elems@.len(),
            tv == tok_views(toks@),
            pos <= toks@.len(),
            n1 <= toks@.len(),
            parse_form(tv, pos as int) == Parsed::Done(ValV::List(ev), n1 as int) || parse_form(
                tv,
                pos as int,
            ) == Parsed::Done(ValV::Vector(ev), n1 as int),
            forall|k: int| 0 <= k < elems@.len() ==> #[trigger] ev[k] == (elems@[k])@,
            build_params(ev, 0, Seq::empty(), false) == build_params(
                ev,
                i as int,
                view_strings(args@),
                variadic,
            ),
        decreases elems@.len() - i,
    {
        match &elems[i] {
            MalType::Symbol(s) => {
                let cs = crate::text::chars_of(s.as_str());
                let is_amp = cs.len() == 1 && cs[0] == '&';
                proof {
                    if is_amp {
                        assert(s@ =~= seq!['&']);
                    } else if s@.len() == 1 {
                        assert(s@ != seq!['&']);
                    } else {
                        assert(s@ != seq!['&']);
                    }
                }
                if is_amp {
                    if !(elems.len() >= 2 && i == elems.len() - 2) {
                        return (Err(ReaderError::VariadicPosition), n1);
                    }
                    variadic = true;
                    i += 1;
                } else {
                    let ghost old_args = args@;
                    args.push(s.clone());
                    proof {
                        assert(args@.drop_last() =~= old_args);
                        assert(view_strings(args@) =~= view_strings(old_args).push(s@));
                    }
                    i += 1;
                }
            },
            _ => {
                return (Err(ReaderError::ParamNotSymbol), n1);
            },
        }
    }
    let (bres, n2) = read_form(toks, n1);
    let body = match bres {
        Ok(b) => b,
        Err(e) => {
            return (Err(e), n2);
        },
    };
    let n3 = if n2 < toks.len() {
        n2 + 1
    } else {
        n2
    };
    let f = MalType::Fn(MalFn { args, body: Box::new(body), env: None, is_variadic: variadic });
    proof {
        assert(f@ =~= ValV::Fn(
            FnV {
                args: view_strings(args@),
                body: Box::new(body@),
                env: None,
                is_variadic: variadic,
            },
        ));
    }
    (Ok(f), n3)
}

/// One-token-lookahead cursor over the token stream.
#[derive(Debug)]
pub struct Reader {
    pub tokens: Vec<Vec<char>>,
    pub pos: usize,
}

impl Reader {
    /// The token under the cursor, if any, without advancing.
    pub fn peek(self: &Self) -> (r: Option<&Vec<char>>)
        ensures
            match r {
                Some(t) => self.pos < self.tokens@.len() && t@ == tok_views(
                    self.tokens@,
                )[self.pos as int],
                None => self.pos >= self.tokens@.len(),
            },
    {
        if self.pos >= self.tokens.len() {
            return None;
        }
        Some(&self.tokens[self.pos])
    }

    /// The token under the cursor, advancing past it.
    pub fn next(self: &mut Self) -> (r: Option<Vec<char>>)
        ensures
            final(self).tokens == old(self).tokens,
            match r {
                Some(t) => old(self).pos < old(self).tokens@.len() && t@ == tok_views(
                    old(self).tokens@,
                )[old(self).pos as int] && final(self).pos == old(self).pos + 1,
                None => old(self).pos >= old(self).tokens@.len() && final(self).pos == old(
                    self,
                ).pos,
            },
    {
        if self.pos >= self.tokens.len() {
            return None;
        }
        let t = crate::text::copy_chars(&self.tokens[self.pos]);
        self.pos += 1;
        Some(t)
    }
}

/// Reads source text into a value: pure, no evaluation, no effects.
pub fn read_str(string: &str) -> (r: Result<MalType, ReaderError>)
    ensures
        match r {
            Ok(v) => read_spec(string@) == Ok::<ValV, ReaderError>(v@),
            Err(e) => read_spec(string@) == Err::<ValV, ReaderError>(e),
        },
{
    let src = crate::text::chars_of(string);
    let tokens = tokenize(&src);
    let mut reader = Reader { tokens, pos: 0 };
    let (res, n) = read_form(&reader.tokens, reader.pos);
    reader.pos = n;
    res
}

/// Parses a vector after its opening delimiter.
fn read_vec(toks: &Vec<Vec<char>>, pos: usize) -> (r: (Result<Vec<MalType>, ReaderError>, usize))
    requires
        pos <= toks@.len(),
    ensures
        ({
            let sp = parse_items(tok_views(toks@), pos as int, ']');
            match r.0 {
                Ok(items) => sp == ParsedItems::Done(crate::types::view_vals(items@), r.1 as int),
                Err(e) => sp == ParsedItems::Bad(e),
            }
        }),
        r.1 <= toks@.len(),
        r.0 is Ok ==> pos < r.1,
    decreases toks@.len() - pos, 2int,
{
    read_collection(toks, pos, ']')
}

/// A string character that readable printing leaves unescaped.
pub open spec fn is_plain_char(c: char) -> bool {
    c != '"' && c != '\n' && c != '\\'
}

/// The literals whose readable rendering reads back exactly: nil, the
/// booleans, integers, strings without escapes, and the empty list and
/// vector.
pub open spec fn is_simple_literal(v: ValV) -> bool {
    match v {
        ValV::Nil => true,
        ValV::Bool(_) => true,
        ValV::Int(_) => true,
        ValV::Str(s) => forall|i: int| 0 <= i < s.len() ==> is_plain_char(#[trigger] s[i]),
        ValV::List(xs) => xs.len() == 0,
        ValV::Vector(xs) => xs.len() == 0,
        _ => false,
    }
}

proof fn lemma_atom_end_all(s: Seq<char>, i: int)
    requires
        0 <= i <= s.len(),
        forall|k: int| i <= k < s.len() ==> is_atom_char(#[trigger] s[k]),
    ensures
        atom_end(s, i) == s.len(),
    decreases s.len() - i,
{
    if i < s.len() {
        lemma_atom_end_all(s, i + 1);
    }
}

proof fn lemma_tokenize_single_atom(s: Seq<char>)
    requires
        s.len() > 0,
        forall|k: int| 0 <= k < s.len() ==> is_atom_char(#[trigger] s[k]),
        !is_special(s[0]),
        s[0] != '"',
        s[0] != ';',
    ensures
        tokenize_spec(s, 0) == seq![s],
{
    assert(!is_ws(s[0]));
    lemma_atom_end_all(s, 1);
    assert(s.subrange(0, s.len() as int) =~= s);
    assert(tokenize_spec(s, s.len() as int) =~= Seq::<Seq<char>>::empty());
    assert(tokenize_spec(s, 0) =~= seq![s]);
}

proof fn lemma_string_scan_plain(s: Seq<char>, j: int)
    requires
        s.len() >= 2,
        1 <= j <= s.len() - 1,
        s[s.len() - 1] == '"',
        forall|k: int| 1 <= k < s.len() - 1 ==> is_plain_char(#[trigger] s[k]),
    ensures
        string_token_end(s, j) == s.len(),
    decreases s.len() - j,
{
    if j == s.len() - 1 {
        assert(s[j] == '"');
    } else {
        assert(is_plain_char(s[j]));
        lemma_string_scan_plain(s, j + 1);
    }
}

proof fn lemma_tokenize_plain_string(s: Seq<char>)
    requires
        s.len() >= 2,
        s[0] == '"',
        s[s.len() - 1] == '"',
        forall|k: int| 1 <= k < s.len() - 1 ==> is_plain_char(#[trigger] s[k]),
    ensures
        tokenize_spec(s, 0) == seq![s],
{
    assert(!is_ws(s[0]));
    assert(!is_special(s[0]));
    lemma_string_scan_plain(s, 1);
    assert(string_token_end(s, 1) == s.len());
    assert(s.subrange(0, s.len() as int) =~= s);
    assert(tokenize_spec(s, s.len() as int) =~= Seq::<Seq<char>>::empty());
    assert(tokenize_spec(s, 0) =~= seq![s]);
}

proof fn lemma_escape_plain(s: Seq<char>)
    requires
        forall|i: int| 0 <= i < s.len() ==> is_plain_char(#[trigger] s[i]),
    ensures
        crate::printer::escape_text(s) == s,
    decreases s.len(),
{
    if s.len() == 0 {
        assert(crate::printer::escape_text(s) =~= s);
    } else {
        lemma_escape_plain(s.drop_last());
        assert(crate::printer::escape_one(s.last()) =~= seq![s.last()]);
        assert(crate::printer::escape_text(s) =~= s.drop_last() + seq![s.last()]);
        assert(s.drop_last() + seq![s.last()] =~= s);
    }
}

proof fn lemma_parse_single_atom(t: Seq<char>, v: ValV)
    requires
        atom_val(t) == Ok::<ValV, ReaderError>(v),
        t != seq!['('],
        t != seq!['['],
        t != seq!['{'],
    ensures
        parse_form(seq![t], 0) == Parsed::Done(v, 1),
{
}

/// Round trip: reading back the readable rendering of a simple literal
/// gives the literal itself.
pub proof fn lemma_literal_round_trip(v: ValV)
    requires
        is_simple_literal(v),
    ensures
        read_spec(crate::printer::print_val(v, true)) == Ok::<ValV, ReaderError>(v),
{
    let text = crate::printer::print_val(v, true);
    match v {
        ValV::Nil => {
            reveal_strlit("nil");
            assert(text =~= seq!['n', 'i', 'l']);
            assert(forall|k: int| 0 <= k < text.len() ==> is_atom_char(#[trigger] text[k]));
            lemma_tokenize_single_atom(text);
            lemma_parse_single_atom(text, ValV::Nil);
        },
        ValV::Bool(b) => {
            if b {
                reveal_strlit("true");
                assert(text =~= seq!['t', 'r', 'u', 'e']);
                assert(forall|k: int| 0 <= k < text.len() ==> is_atom_char(#[trigger] text[k]));
                lemma_tokenize_single_atom(text);
                assert(text != seq!['n', 'i', 'l']);
                assert(text != seq!['f', 'a', 'l', 's', 'e']);
                lemma_parse_single_atom(text, ValV::Bool(true));
            } else {
                reveal_strlit("false");
                assert(text =~= seq!['f', 'a', 'l', 's', 'e']);
                assert(forall|k: int| 0 <= k < text.len() ==> is_atom_char(#[trigger] text[k]));
                lemma_tokenize_single_atom(text);
                assert(text != seq!['n', 'i', 'l']);
                lemma_parse_single_atom(text, ValV::Bool(false));
            }
        },
        ValV::Int(i) => {
            assert(text == crate::text::dec_int(i as int));
            crate::text::lemma_int_round_trip(i as int);
            if i < 0 {
                crate::text::lemma_dec_nat_digits((-(i as int)) as nat);
                assert(forall|k: int|
                    1 <= k < text.len() ==> crate::text::is_digit(#[trigger] text[k]));
                assert(text[0] == '-');
            } else {
                crate::text::lemma_dec_nat_digits((i as int) as nat);
                assert(forall|k: int|
                    0 <= k < text.len() ==> crate::text::is_digit(#[trigger] text[k]));
            }
            assert(forall|k: int| 0 <= k < text.len() ==> is_atom_char(#[trigger] text[k]));
            assert(!is_special(text[0]) && text[0] != '"' && text[0] != ';');
            lemma_tokenize_single_atom(text);
            assert(text != seq!['n', 'i', 'l']);
            assert(text != seq!['f', 'a', 'l', 's', 'e']);
            assert(text != seq!['t', 'r', 'u', 'e']);
            assert(atom_val(text) == Ok::<ValV, ReaderError>(ValV::Int(i)));
            assert(text != seq!['(']);
            assert(text != seq!['[']);
            assert(text != seq!['{']);
            lemma_parse_single_atom(text, ValV::Int(i));
        },
        ValV::Str(cs) => {
            lemma_escape_plain(cs);
            assert(text =~= seq!['"'] + cs + seq!['"']);
            assert(text.len() == cs.len() + 2);
            assert(text[0] == '"' && text[text.len() - 1] == '"');
            assert(forall|k: int| 1 <= k < text.len() - 1 ==> is_plain_char(#[trigger] text[k]));
            lemma_tokenize_plain_string(text);
            assert(text != seq!['n', 'i', 'l']);
            assert(text != seq!['f', 'a', 'l', 's', 'e']);
            assert(text != seq!['t', 'r', 'u', 'e']);
            assert(!crate::text::is_int_token(text)) by {
                let body = text;
                assert(!crate::text::is_digit(text[0]));
                assert(text[0] != '-' && text[0] != '+');
                assert(!crate::text::all_digits(body));
            }
            assert(crate::reader::bs_run(text, text.len() - 2) == 0) by {
                if text.len() > 2 {
                    assert(text[text.len() - 2] == cs[cs.len() - 1]);
                    assert(is_plain_char(cs[cs.len() - 1]));
                }
            }
            assert(text.subrange(1, text.len() - 1) =~= cs);
            assert(atom_val(text) == Ok::<ValV, ReaderError>(ValV::Str(cs)));
            assert(text != seq!['(']);
            assert(text != seq!['[']);
            assert(text != seq!['{']);
            lemma_parse_single_atom(text, ValV::Str(cs));
        },
        ValV::List(xs) => {
            assert(xs =~= Seq::<ValV>::empty());
            assert(crate::printer::print_items(xs, true) =~= Seq::<char>::empty());
            assert(text =~= seq!['(', ')']);
            let toks = tokenize_spec(text, 0);
            assert(is_special(text[0]) && is_special(text[1]));
            assert(toks =~= seq![seq!['('], seq![')']]) by {
                reveal_with_fuel(tokenize_spec, 4);
                assert(tokenize_spec(text, 2) =~= Seq::<Seq<char>>::empty());
            }
            assert(parse_items(toks, 1, ')') == ParsedItems::Done(Seq::<ValV>::empty(), 2));
            assert(toks[1] != seq!['f', 'n', '*']);
            assert(parse_form(toks, 0) == Parsed::Done(ValV::List(Seq::empty()), 2));
        },
        ValV::Vector(xs) => {
            assert(xs =~= Seq::<ValV>::empty());
            assert(crate::printer::print_items(xs, true) =~= Seq::<char>::empty());
            assert(text =~= seq!['[', ']']);
            let toks = tokenize_spec(text, 0);
            assert(is_special(text[0]) && is_special(text[1]));
            assert(toks =~= seq![seq!['['], seq![']']]) by {
                reveal_with_fuel(tokenize_spec, 4);
                assert(tokenize_spec(text, 2) =~= Seq::<Seq<char>>::empty());
            }
            assert(parse_items(toks, 1, ']') == ParsedItems::Done(Seq::<ValV>::empty(), 2));
            assert(toks[0] != seq!['(']);
            assert(parse_form(toks, 0) == Parsed::Done(ValV::Vector(Seq::empty()), 2));
        },
        _ => {},
    }
}

} // verus!
