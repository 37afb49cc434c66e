//! The printer: renders a value back to text. Readable mode quotes and
//! escapes strings so the reader can take the text back; display mode
//! renders string contents without quotes, with their literal escape
//! sequences turned into the real newline and quote characters.
use vstd::prelude::*;

use crate::text::{dec_int, i64_chars, string_of};
use crate::types::{hashable_as_val, HashableV, MalHashable, MalType, ValV};

verus! {

/// How one character of a string renders in readable mode.
pub open spec fn escape_one(c: char) -> Seq<char> {
    if c == '"' {
        seq!['\\', '"']
    } else if c == '\n' {
        seq!['\\', 'n']
    } else if c == '\\' {
        seq!['\\', '\\']
    } else {
        seq![c]
    }
}

/// Readable-mode escaping of string contents.
pub open spec fn escape_text(s: Seq<char>) -> Seq<char>
    decreases s.len(),
{
    if s.len() == 0 {
        Seq::empty()
    } else {
        escape_text(s.drop_last()) + escape_one(s.last())
    }
}

/// Leftmost, non-overlapping replacement of the escape pair
/// backslash-`t` by the single character `r`.
pub open spec fn replace_esc(s: Seq<char>, t: char, r: char) -> Seq<char>
    decreases s.len(),
{
    if s.len() >= 2 && s[0] == '\\' && s[1] == t {
        seq![r] + replace_esc(s.skip(2), t, r)
    } else if s.len() > 0 {
        seq![s[0]] + replace_esc(s.drop_first(), t, r)
    } else {
        Seq::empty()
    }
}

/// Display-mode rendering of string contents: the stored text with its
/// literal newline and quote escape sequences turned into the real
/// characters.
pub open spec fn display_text(s: Seq<char>) -> Seq<char> {
    replace_esc(replace_esc(s, 'n', '\n'), '"', '"')
}

/// What a value prints as. Strings quote and escape in readable mode
/// and render raw otherwise; lists, vectors and maps render their
/// elements space-separated inside their brackets; function values
/// render as an opaque placeholder.
pub open spec fn print_val(v: ValV, readable: bool) -> Seq<char>
    decreases v,
{
    match v {
        ValV::Nil => "nil"@,
        ValV::Bool(b) => if b {
            "true"@
        } else {
            "false"@
        },
        ValV::Int(i) => dec_int(i as int),
        ValV::Symbol(s) => s,
        ValV::KeyWord(s) => s,
        ValV::Error(s) => s,
        ValV::Str(s) => if readable {
            seq!['"'] + escape_text(s) + seq!['"']
        } else {
            display_text(s)
        },
        ValV::List(xs) => seq!['('] + print_items(xs, readable) + seq![')'],
        ValV::Vector(xs) => seq!['['] + print_items(xs, readable) + seq![']'],
        ValV::Dict(ps) => seq!['{'] + print_entries(ps, readable) + seq!['}'],
        ValV::Function(_) => "#<function>"@,
        ValV::Fn(_) => "#<function>"@,
    }
}

/// Space-separated rendering of a sequence of values.
pub open spec fn print_items(xs: Seq<ValV>, readable: bool) -> Seq<char>
    decreases xs,
{
    if xs.len() == 0 {
        Seq::empty()
    } else if xs.len() == 1 {
        print_val(xs[0], readable)
    } else {
        print_val(xs[0], readable) + seq![' '] + print_items(xs.drop_first(), readable)
    }
}

/// What a map key prints as; keys are leaf values, so this never
/// recurses. It agrees with `print_val` on the value the key stands
/// for.
pub open spec fn print_key(h: HashableV, readable: bool) -> Seq<char> {
    match h {
        HashableV::Nil => "nil"@,
        HashableV::Bool(b) => if b {
            "true"@
        } else {
            "false"@
        },
        HashableV::Int(i) => dec_int(i as int),
        HashableV::Symbol(s) => s,
        HashableV::KeyWord(s) => s,
        HashableV::Str(s) => if readable {
            seq!['"'] + escape_text(s) + seq!['"']
        } else {
            display_text(s)
        },
    }
}

/// `print_key` is `print_val` on the value the key stands for.
pub proof fn lemma_print_key(h: HashableV, readable: bool)
    ensures
        print_key(h, readable) == print_val(hashable_as_val(h), readable),
{
}

/// Space-separated rendering of map entries, each as `key value`.
pub open spec fn print_entries(ps: Seq<(HashableV, ValV)>, readable: bool) -> Seq<char>
    decreases ps,
{
    if ps.len() == 0 {
        Seq::empty()
    } else if ps.len() == 1 {
        print_key(ps[0].0, readable) + seq![' '] + print_val(ps[0].1, readable)
    } else {
        print_key(ps[0].0, readable) + seq![' '] + print_val(ps[0].1, readable)
            + seq![' '] + print_entries(ps.drop_first(), readable)
    }
}

proof fn lemma_print_items_snoc(xs: Seq<ValV>, v: ValV, readable: bool)
    ensures
        print_items(xs.push(v), readable) == if xs.len() == 0 {
            print_val(v, readable)
        } else {
            print_items(xs, readable) + seq![' '] + print_val(v, readable)
        },
    decreases xs.len(),
{
    let s = xs.push(v);
    if xs.len() == 0 {
        assert(s.len() == 1);
        assert(s[0] == v);
    } else {
        assert(s[0] == xs[0]);
        assert(s.drop_first() =~= xs.drop_first().push(v));
        lemma_print_items_snoc(xs.drop_first(), v, readable);
        if xs.len() == 1 {
            assert(xs.drop_first().len() == 0);
            assert(print_items(s, readable) =~= print_items(xs, readable) + seq![' ']
                + print_val(v, readable));
        } else {
            assert(print_items(s, readable) =~= print_items(xs, readable) + seq![' ']
                + print_val(v, readable));
        }
    }
}

proof fn lemma_print_entries_snoc(ps: Seq<(HashableV, ValV)>, p: (HashableV, ValV), readable: bool)
    ensures
        print_entries(ps.push(p), readable) == if ps.len() == 0 {
            print_key(p.0, readable) + seq![' '] + print_val(p.1, readable)
        } else {
            print_entries(ps, readable) + seq![' '] + print_key(p.0, readable)
                + seq![' '] + print_val(p.1, readable)
        },
    decreases ps.len(),
{
    let s = ps.push(p);
    if ps.len() == 0 {
        assert(s.len() == 1);
        assert(s[0] == p);
        assert(print_entries(s, readable) =~= print_key(p.0, readable)
            + seq![' '] + print_val(p.1, readable));
    } else {
        assert(s[0] == ps[0]);
        assert(s.drop_first() =~= ps.drop_first().push(p));
        lemma_print_entries_snoc(ps.drop_first(), p, readable);
        assert(print_entries(s, readable) =~= print_entries(ps, readable) + seq![' ']
            + print_key(p.0, readable) + seq![' '] + print_val(p.1, readable));
    }
}

/// Replaces the two-character escape backslash-`t` by `r` throughout.
fn replace_esc_x(s: &Vec<char>, t: char, r: char) -> (out: Vec<char>)
    ensures
        out@ == replace_esc(s@, t, r),
{
    let mut out: Vec<char> = Vec::new();
    let mut i: usize = 0;
    proof {
        assert(s@.skip(0) =~= s@);
        assert(out@ + replace_esc(s@.skip(0), t, r) =~= replace_esc(s@, t, r));
    }
    while i < s.len()
        invariant
            i <= s@.len(),
            replace_esc(s@, t, r) == out@ + replace_esc(s@.skip(i as int), t, r),
        decreases s@.len() - i,
    {
        let ghost suf = s@.skip(i as int);
        assert(suf[0] == s@[i as int]);
        if i + 1 < s.len() && s[i] == '\\' && s[i + 1] == t {
            assert(suf[1] == s@[i + 1]);
            out.push(r);
            proof {
                assert(suf.skip(2) =~= s@.skip(i + 2));
                assert(replace_esc(suf, t, r) =~= seq![r] + replace_esc(s@.skip(i + 2), t, r));
                assert(replace_esc(s@, t, r) =~= out@ + replace_esc(s@.skip(i + 2), t, r));
            }
            i += 2;
        } else {
            out.push(s[i]);
            proof {
                assert(suf.drop_first() =~= s@.skip(i + 1));
                assert(replace_esc(suf, t, r) =~= seq![suf[0]] + replace_esc(
                    s@.skip(i + 1),
                    t,
                    r,
                ));
                assert(replace_esc(s@, t, r) =~= out@ + replace_esc(s@.skip(i + 1), t, r));
            }
            i += 1;
        }
    }
    proof {
        assert(s@.skip(s@.len() as int) =~= Seq::<char>::empty());
        assert(replace_esc(Seq::<char>::empty(), t, r) =~= Seq::<char>::empty());
        assert(out@ =~= replace_esc(s@, t, r));
    }
    out
}

/// Appends the display-mode rendering of string contents.
fn display_str(s: &String, out: &mut Vec<char>)
    ensures
        final(out)@ == old(out)@ + display_text(s@),
{
    let cs = crate::text::chars_of(s.as_str());
    let pass1 = replace_esc_x(&cs, 'n', '\n');
    let mut pass2 = replace_esc_x(&pass1, '"', '"');
    out.append(&mut pass2);
}

/// Appends the readable escaping of string contents.
fn escape_str(s: &String, out: &mut Vec<char>)
    ensures
        final(out)@ == old(out)@ + escape_text(s@),
{
    let cs = crate::text::chars_of(s.as_str());
    let mut i: usize = 0;
    proof {
        assert(escape_text(s@.take(0)) =~= Seq::<char>::empty());
        assert(out@ =~= out@ + escape_text(s@.take(0)));
    }
    while i < cs.len()
        invariant
            i <= cs@.len(),
            cs@ == s@,
            out@ == old(out)@ + escape_text(s@.take(i as int)),
        decreases cs@.len() - i,
    {
        let c = cs[i];
        proof {
            assert(s@.take(i + 1).drop_last() =~= s@.take(i as int));
            assert(s@.take(i + 1).last() == c);
        }
        if c == '"' {
            out.push('\\');
            out.push('"');
        } else if c == '\n' {
            out.push('\\');
            out.push('n');
        } else if c == '\\' {
            out.push('\\');
            out.push('\\');
        } else {
            out.push(c);
        }
        proof {
            assert(out@ =~= old(out)@ + escape_text(s@.take(i + 1)));
        }
        i += 1;
    }
    proof {
        assert(s@.take(cs@.len() as int) =~= s@);
    }
}

/// Appends the rendering of one value.
fn print_into(v: &MalType, readable: bool, out: &mut Vec<char>)
    ensures
        final(out)@ == old(out)@ + print_val(v@, readable),
    decreases *v,
{
    match v {
        MalType::Nil => {
            proof {
                reveal_strlit("nil");
            }
            out.push('n');
            out.push('i');
            out.push('l');
            assert(out@ =~= old(out)@ + "nil"@);
        },
        MalType::Bool(b) => {
            if *b {
                proof {
                    reveal_strlit("true");
                }
                out.push('t');
                out.push('r');
                out.push('u');
                out.push('e');
                assert(out@ =~= old(out)@ + "true"@);
            } else {
                proof {
                    reveal_strlit("false");
                }
                out.push('f');
                out.push('a');
                out.push('l');
                out.push('s');
                out.push('e');
                assert(out@ =~= old(out)@ + "false"@);
            }
        },
        MalType::Int(i) => {
            let mut cs = i64_chars(*i);
            out.append(&mut cs);
        },
        MalType::Symbol(s) => {
            let mut cs = crate::text::chars_of(s.as_str());
            out.append(&mut cs);
        },
        MalType::KeyWord(s) => {
            let mut cs = crate::text::chars_of(s.as_str());
            out.append(&mut cs);
        },
        MalType::Error(s) => {
            let mut cs = crate::text::chars_of(s.as_str());
            out.append(&mut cs);
        },
        MalType::String(s) => {
            if readable {
                out.push('"');
                escape_str(s, out);
                out.push('"');
                assert(out@ =~= old(out)@ + (seq!['"'] + escape_text(s@) + seq!['"']));
            } else {
                display_str(s, out);
            }
        },
        MalType::List(xs) => {
            out.push('(');
            print_vec(xs, readable, out);
            out.push(')');
            assert(out@ =~= old(out)@ + (seq!['('] + print_items(crate::types::view_vals(xs@),
            readable) + seq![')']));
        },
        MalType::Vector(xs) => {
            out.push('[');
            print_vec(xs, readable, out);
            out.push(']');
            assert(out@ =~= old(out)@ + (seq!['['] + print_items(crate::types::view_vals(xs@),
            readable) + seq![']']));
        },
        MalType::Dict(ps) => {
            out.push('{');
            print_map(ps, readable, out);
            out.push('}');
            assert(out@ =~= old(out)@ + (seq!['{'] + print_entries(crate::types::view_pairs(ps@),
            readable) + seq!['}']));
        },
        MalType::Function(_) => {
            push_placeholder(out);
        },
        MalType::Fn(_) => {
            push_placeholder(out);
        },
    }
}

/// Appends the opaque rendering of a function value.
fn push_placeholder(out: &mut Vec<char>)
    ensures
        final(out)@ == old(out)@ + "#<function>"@,
{
    proof {
        reveal_strlit("#<function>");
    }
    out.push('#');
    out.push('<');
    out.push('f');
    out.push('u');
    out.push('n');
    out.push('c');
    out.push('t');
    out.push('i');
    out.push('o');
    out.push('n');
    out.push('>');
    assert(out@ =~= old(out)@ + "#<function>"@);
}

/// Appends the space-separated rendering of a sequence of values.
fn print_vec(xs: &Vec<MalType>, readable: bool, out: &mut Vec<char>)
    ensures
        final(out)@ == old(out)@ + print_items(crate::types::view_vals(xs@), readable),
    decreases *xs,
{
    let ghost vs = crate::types::view_vals(xs@);
    proof {
        crate::types::lemma_view_vals(xs@);
    }
    let mut i: usize = 0;
    proof {
        assert(print_items(vs.take(0), readable) =~= Seq::<char>::empty());
        assert(out@ =~= out@ + print_items(vs.take(0), readable));
    }
    while i < xs.len()
        invariant
            i <= xs@.len(),
            vs == crate::types::view_vals(xs@),
            vs.len() == xs@.len(),
            forall|k: int| 0 <= k < xs@.len() ==> #[trigger] vs[k] == (xs@[k])@,
            out@ == old(out)@ + print_items(vs.take(i as int), readable),
        decreases xs@.len() - i,
    {
        if i > 0 {
            out.push(' ');
        }
        print_into(&xs[i], readable, out);
        proof {
            assert(vs.take(i + 1) =~= vs.take(i as int).push(vs[i as int]));
            lemma_print_items_snoc(vs.take(i as int), vs[i as int], readable);
            assert(out@ =~= old(out)@ + print_items(vs.take(i + 1), readable));
        }
        i += 1;
    }
    proof {
        assert(vs.take(xs@.len() as int) =~= vs);
    }
}

/// Appends the space-separated rendering of map entries.
fn print_map(ps: &Vec<(MalHashable, MalType)>, readable: bool, out: &mut Vec<char>)
    ensures
        final(out)@ == old(out)@ + print_entries(crate::types::view_pairs(ps@), readable),
    decreases *ps,
{
    let ghost vs = crate::types::view_pairs(ps@);
    proof {
        crate::types::lemma_view_pairs(ps@);
    }
    let mut i: usize = 0;
    proof {
        assert(print_entries(vs.take(0), readable) =~= Seq::<char>::empty());
        assert(out@ =~= out@ + print_entries(vs.take(0), readable));
    }
    while i < ps.len()
        invariant
            i <= ps@.len(),
            vs == crate::types::view_pairs(ps@),
            vs.len() == ps@.len(),
            forall|k: int|
                0 <= k < ps@.len() ==> #[trigger] vs[k] == (
                crate::types::view_hashable(ps@[k].0),
                crate::types::view_val(ps@[k].1),
                ),
            out@ == old(out)@ + print_entries(vs.take(i as int), readable),
        decreases ps@.len() - i,
    {
        if i > 0 {
            out.push(' ');
        }
        print_key_into(&ps[i].0, readable, out);
        out.push(' ');
        print_into(&ps[i].1, readable, out);
        proof {
            assert(vs.take(i + 1) =~= vs.take(i as int).push(vs[i as int]));
            lemma_print_entries_snoc(vs.take(i as int), vs[i as int], readable);
            assert(out@ =~= old(out)@ + print_entries(vs.take(i + 1), readable));
        }
        i += 1;
    }
    proof {
        assert(vs.take(ps@.len() as int) =~= vs);
    }
}

/// Appends the rendering of one map key.
fn print_key_into(h: &MalHashable, readable: bool, out: &mut Vec<char>)
    ensures
        final(out)@ == old(out)@ + print_key(h@, readable),
{
    match h {
        MalHashable::Nil => {
            proof {
                reveal_strlit("nil");
            }
            out.push('n');
            out.push('i');
            out.push('l');
            assert(out@ =~= old(out)@ + "nil"@);
        },
        MalHashable::Bool(b) => {
            if *b {
                proof {
                    reveal_strlit("true");
                }
                out.push('t');
                out.push('r');
                out.push('u');
                out.push('e');
                assert(out@ =~= old(out)@ + "true"@);
            } else {
                proof {
                    reveal_strlit("false");
                }
                out.push('f');
                out.push('a');
                out.push('l');
                out.push('s');
                out.push('e');
                assert(out@ =~= old(out)@ + "false"@);
            }
        },
        MalHashable::Int(i) => {
            let mut cs = i64_chars(*i);
            out.append(&mut cs);
        },
        MalHashable::Symbol(s) => {
            let mut cs = crate::text::chars_of(s.as_str());
            out.append(&mut cs);
        },
        MalHashable::KeyWord(s) => {
            let mut cs = crate::text::chars_of(s.as_str());
            out.append(&mut cs);
        },
        MalHashable::String(s) => {
            if readable {
                out.push('"');
                escape_str(s, out);
                out.push('"');
                assert(out@ =~= old(out)@ + (seq!['"'] + escape_text(s@) + seq!['"']));
            } else {
                display_str(s, out);
            }
        },
    }
}

/// Renders a value to text in the requested fidelity mode.
pub fn pr_str(var: MalType, print_readably: bool) -> (r: String)
    ensures
        r@ == print_val(var@, print_readably),
{
    let mut out: Vec<char> = Vec::new();
    print_into(&var, print_readably, &mut out);
    string_of(&out)
}

/// Renders a value to characters in the requested fidelity mode.
pub fn pr_chars(var: &MalType, print_readably: bool) -> (r: Vec<char>)
    ensures
        r@ == print_val(var@, print_readably),
{
    let mut out: Vec<char> = Vec::new();
    print_into(var, print_readably, &mut out);
    out
}

} // verus!
