//! The native builtin library: arithmetic, comparisons, predicates,
//! list construction, counting, and the text-producing natives, plus
//! the base environment that binds them all.
use vstd::prelude::*;

use crate::env::Env;
use crate::printer::{pr_chars, print_val};
use crate::text::{lex_lt, string_of};
use crate::types::{
    invalid_argument_msg, view_vals, MalFunction, MalType, ValV,
};

verus! {

pub open spec fn cmp_arity_msg() -> Seq<char> {
    "Comparision needs at least two parameters."@
}

pub open spec fn unsupported_cmp_msg(v: ValV) -> Seq<char> {
    "Unsupported type for comparision: "@ + print_val(v, true)
}

/// The comparison each native asks of every later argument against the
/// first one.
#[derive(Clone, Copy, Debug, PartialEq, Eq, Structural)]
pub enum CmpOp {
    Less,
    LessEq,
    Bigger,
    BiggerEq,
    NotEq,
}

/// Whether `later` stands in the asked relation to `first`; arguments
/// of unequal or unordered kinds never do.
pub open spec fn cmp_holds(op: CmpOp, first: ValV, later: ValV) -> bool {
    match (first, later) {
        (ValV::Bool(x), ValV::Bool(y)) => match op {
            CmpOp::Less => y && !x,
            CmpOp::LessEq => y || !x,
            CmpOp::Bigger => !y && x,
            CmpOp::BiggerEq => !y || x,
            CmpOp::NotEq => y != x,
        },
        (ValV::Int(x), ValV::Int(y)) => match op {
            CmpOp::Less => y > x,
            CmpOp::LessEq => y >= x,
            CmpOp::Bigger => y < x,
            CmpOp::BiggerEq => y <= x,
            CmpOp::NotEq => y != x,
        },
        (ValV::Str(x), ValV::Str(y)) => match op {
            CmpOp::Less => lex_lt(x, y),
            CmpOp::LessEq => !lex_lt(y, x),
            CmpOp::Bigger => lex_lt(y, x),
            CmpOp::BiggerEq => !lex_lt(x, y),
            CmpOp::NotEq => y != x,
        },
        _ => false,
    }
}

/// What a comparison native returns: a boolean over all later
/// arguments, or an error for too few arguments or an unordered kind.
pub open spec fn cmp_result(op: CmpOp, args: Seq<ValV>) -> ValV {
    if args.len() < 2 {
        ValV::Error(cmp_arity_msg())
    } else {
        match args[0] {
            ValV::Bool(_) => ValV::Bool(
                forall|k: int| 1 <= k < args.len() ==> cmp_holds(op, args[0], #[trigger] args[k]),
            ),
            ValV::Int(_) => ValV::Bool(
                forall|k: int| 1 <= k < args.len() ==> cmp_holds(op, args[0], #[trigger] args[k]),
            ),
            ValV::Str(_) => ValV::Bool(
                forall|k: int| 1 <= k < args.len() ==> cmp_holds(op, args[0], #[trigger] args[k]),
            ),
            m => ValV::Error(unsupported_cmp_msg(m)),
        }
    }
}

/// Value equality as `=` sees it: lists and vectors are mutually equal
/// element-wise (the collection tag is not part of equality); nil,
/// booleans, integers, symbols, keywords, strings and errors compare
/// by underlying value; maps and function values are never equal to
/// anything.
pub open spec fn val_equal(a: ValV, b: ValV) -> bool
    decreases a,
{
    match a {
        ValV::List(x) => seq_equal_to(x, b),
        ValV::Vector(x) => seq_equal_to(x, b),
        ValV::Nil => b is Nil,
        ValV::Bool(v) => b == ValV::Bool(v),
        ValV::Int(v) => b == ValV::Int(v),
        ValV::Str(s) => b == ValV::Str(s),
        ValV::Symbol(s) => b == ValV::Symbol(s),
        ValV::KeyWord(s) => b == ValV::KeyWord(s),
        ValV::Error(s) => b == ValV::Error(s),
        _ => false,
    }
}

/// Whether `b` is a list or vector of exactly these elements.
pub open spec fn seq_equal_to(x: Seq<ValV>, b: ValV) -> bool
    decreases x,
{
    match b {
        ValV::List(y) => x.len() == y.len() && (forall|i: int|
            0 <= i < x.len() ==> val_equal(#[trigger] x[i], y[i])),
        ValV::Vector(y) => x.len() == y.len() && (forall|i: int|
            0 <= i < x.len() ==> val_equal(#[trigger] x[i], y[i])),
        _ => false,
    }
}

/// The collection tag is not part of equality: whether the elements
/// sit in a list or in a vector, either side compares the same.
pub proof fn lemma_equality_ignores_collection_tag(xs: Seq<ValV>, b: ValV)
    ensures
        val_equal(ValV::List(xs), b) == val_equal(ValV::Vector(xs), b),
        val_equal(b, ValV::List(xs)) == val_equal(b, ValV::Vector(xs)),
{
    match b {
        ValV::List(y) => {
            assert(seq_equal_to(y, ValV::List(xs)) == seq_equal_to(y, ValV::Vector(xs)));
        },
        ValV::Vector(y) => {
            assert(seq_equal_to(y, ValV::List(xs)) == seq_equal_to(y, ValV::Vector(xs)));
        },
        _ => {},
    }
}

/// Whether a value takes part in `=` without an error.
pub open spec fn equatable(v: ValV) -> bool {
    match v {
        ValV::List(_) => true,
        ValV::Vector(_) => true,
        ValV::Nil => true,
        ValV::Bool(_) => true,
        ValV::Int(_) => true,
        ValV::Str(_) => true,
        ValV::Symbol(_) => true,
        ValV::KeyWord(_) => true,
        ValV::Error(_) => true,
        _ => false,
    }
}

/// What `=` returns.
pub open spec fn equals_result(args: Seq<ValV>) -> ValV {
    if args.len() < 2 {
        ValV::Error(cmp_arity_msg())
    } else if equatable(args[0]) {
        ValV::Bool(forall|k: int| 1 <= k < args.len() ==> val_equal(args[0], #[trigger] args[k]))
    } else {
        ValV::Error(unsupported_cmp_msg(args[0]))
    }
}

/// Whether value equality holds between two runtime values.
pub fn val_equal_x(a: &MalType, b: &MalType) -> (r: bool)
    ensures
        r == val_equal(a@, b@),
    decreases *a,
{
    match (a, b) {
        (MalType::List(x), MalType::List(y)) => seqs_equal(x, y),
        (MalType::List(x), MalType::Vector(y)) => seqs_equal(x, y),
        (MalType::Vector(x), MalType::List(y)) => seqs_equal(x, y),
        (MalType::Vector(x), MalType::Vector(y)) => seqs_equal(x, y),
        (MalType::Nil, MalType::Nil) => true,
        (MalType::Bool(x), MalType::Bool(y)) => *x == *y,
        (MalType::Int(x), MalType::Int(y)) => *x == *y,
        (MalType::String(x), MalType::String(y)) => *x == *y,
        (MalType::Symbol(x), MalType::Symbol(y)) => *x == *y,
        (MalType::KeyWord(x), MalType::KeyWord(y)) => *x == *y,
        (MalType::Error(x), MalType::Error(y)) => *x == *y,
        _ => false,
    }
}

fn seqs_equal(x: &Vec<MalType>, y: &Vec<MalType>) -> (r: bool)
    ensures
        r == (view_vals(x@).len() == view_vals(y@).len() && (forall|i: int|
            0 <= i < view_vals(x@).len() ==> val_equal(
                #[trigger] view_vals(x@)[i],
                view_vals(y@)[i],
            ))),
    decreases *x,
{
    proof {
        crate::types::lemma_view_vals(x@);
        crate::types::lemma_view_vals(y@);
    }
    if x.len() != y.len() {
        return false;
    }
    let mut i: usize = 0;
    while i < x.len()
        invariant
            i <= x@.len(),
            x@.len() == y@.len(),
            view_vals(x@).len() == x@.len(),
            view_vals(y@).len() == y@.len(),
            forall|k: int| 0 <= k < x@.len() ==> #[trigger] view_vals(x@)[k] == (x@[k])@,
            forall|k: int| 0 <= k < y@.len() ==> #[trigger] view_vals(y@)[k] == (y@[k])@,
            forall|k: int|
                0 <= k < i ==> val_equal(#[trigger] view_vals(x@)[k], view_vals(y@)[k]),
        decreases x@.len() - i,
    {
        if !val_equal_x(&x[i], &y[i]) {
            assert(!val_equal(view_vals(x@)[i as int], view_vals(y@)[i as int]));
            return false;
        }
        i += 1;
    }
    true
}

/// Compares every later argument to the first one.
fn do_cmp(args: &Vec<MalType>, op: CmpOp) -> (r: MalType)
    ensures
        r@ == cmp_result(op, view_vals(args@)),
{
    let ghost av = view_vals(args@);
    proof {
        crate::types::lemma_view_vals(args@);
    }
    if args.len() < 2 {
        let cs = crate::text::chars_of("Comparision needs at least two parameters.");
        return MalType::Error(string_of(&cs));
    }
    let first = &args[0];
    match first {
        MalType::Bool(_) => {},
        MalType::Int(_) => {},
        MalType::String(_) => {},
        m => {
            let mut cs = crate::text::chars_of("Unsupported type for comparision: ");
            let mut rendered = pr_chars(m, true);
            cs.append(&mut rendered);
            return MalType::Error(string_of(&cs));
        },
    }
    let mut k: usize = 1;
    while k < args.len()
        invariant
            1 <= k <= args@.len(),
            2 <= args@.len(),
            av == view_vals(args@),
            av.len() == args@.len(),
            forall|j: int| 0 <= j < args@.len() ==> #[trigger] av[j] == (args@[j])@,
            av[0] is Bool || av[0] is Int || av[0] is Str,
            forall|j: int| 1 <= j < k ==> cmp_holds(op, av[0], #[trigger] av[j]),
        decreases args@.len() - k,
    {
        let holds = cmp_pair(&args[0], &args[k], op);
        if !holds {
            assert(!cmp_holds(op, av[0], av[k as int]));
            return MalType::Bool(false);
        }
        k += 1;
    }
    MalType::Bool(true)
}

/// Whether one later argument stands in the asked relation to the first.
fn cmp_pair(first: &MalType, later: &MalType, op: CmpOp) -> (r: bool)
    ensures
        r == cmp_holds(op, first@, later@),
{
    match (first, later) {
        (MalType::Bool(x), MalType::Bool(y)) => match op {
            CmpOp::Less => *y && !*x,
            CmpOp::LessEq => *y || !*x,
            CmpOp::Bigger => !*y && *x,
            CmpOp::BiggerEq => !*y || *x,
            CmpOp::NotEq => *y != *x,
        },
        (MalType::Int(x), MalType::Int(y)) => match op {
            CmpOp::Less => *y > *x,
            CmpOp::LessEq => *y >= *x,
            CmpOp::Bigger => *y < *x,
            CmpOp::BiggerEq => *y <= *x,
            CmpOp::NotEq => *y != *x,
        },
        (MalType::String(x), MalType::String(y)) => {
            let xc = crate::text::chars_of(x.as_str());
            let yc = crate::text::chars_of(y.as_str());
            match op {
                CmpOp::Less => crate::text::chars_lt(&xc, &yc),
                CmpOp::LessEq => !crate::text::chars_lt(&yc, &xc),
                CmpOp::Bigger => crate::text::chars_lt(&yc, &xc),
                CmpOp::BiggerEq => !crate::text::chars_lt(&xc, &yc),
                CmpOp::NotEq => !(*y == *x),
            }
        },
        _ => false,
    }
}

/// All later arguments are greater than the first.
pub fn less(args: &Vec<MalType>) -> (r: MalType)
    ensures
        r@ == cmp_result(CmpOp::Less, view_vals(args@)),
{
    do_cmp(args, CmpOp::Less)
}

/// All later arguments are at least the first.
pub fn less_eq(args: &Vec<MalType>) -> (r: MalType)
    ensures
        r@ == cmp_result(CmpOp::LessEq, view_vals(args@)),
{
    do_cmp(args, CmpOp::LessEq)
}

/// All later arguments are less than the first.
pub fn bigger(args: &Vec<MalType>) -> (r: MalType)
    ensures
        r@ == cmp_result(CmpOp::Bigger, view_vals(args@)),
{
    do_cmp(args, CmpOp::Bigger)
}

/// All later arguments are at most the first.
pub fn bigger_eq(args: &Vec<MalType>) -> (r: MalType)
    ensures
        r@ == cmp_result(CmpOp::BiggerEq, view_vals(args@)),
{
    do_cmp(args, CmpOp::BiggerEq)
}

/// All later arguments differ from the first.
pub fn not_equals(args: &Vec<MalType>) -> (r: MalType)
    ensures
        r@ == cmp_result(CmpOp::NotEq, view_vals(args@)),
{
    do_cmp(args, CmpOp::NotEq)
}

/// All later arguments equal the first, lists and vectors mutually.
pub fn equals(args: &Vec<MalType>) -> (r: MalType)
    ensures
        r@ == equals_result(view_vals(args@)),
{
    let ghost av = view_vals(args@);
    proof {
        crate::types::lemma_view_vals(args@);
    }
    if args.len() < 2 {
        let cs = crate::text::chars_of("Comparision needs at least two parameters.");
        return MalType::Error(string_of(&cs));
    }
    match &args[0] {
        MalType::List(_) => {},
        MalType::Vector(_) => {},
        MalType::Nil => {},
        MalType::Bool(_) => {},
        MalType::Int(_) => {},
        MalType::String(_) => {},
        MalType::Symbol(_) => {},
        MalType::KeyWord(_) => {},
        MalType::Error(_) => {},
        m => {
            let mut cs = crate::text::chars_of("Unsupported type for comparision: ");
            let mut rendered = pr_chars(m, true);
            cs.append(&mut rendered);
            return MalType::Error(string_of(&cs));
        },
    }
    let mut k: usize = 1;
    while k < args.len()
        invariant
            1 <= k <= args@.len(),
            2 <= args@.len(),
            av == view_vals(args@),
            av.len() == args@.len(),
            forall|j: int| 0 <= j < args@.len() ==> #[trigger] av[j] == (args@[j])@,
            equatable(av[0]),
            forall|j: int| 1 <= j < k ==> val_equal(av[0], #[trigger] av[j]),
        decreases args@.len() - k,
    {
        if !val_equal_x(&args[0], &args[k]) {
            assert(!val_equal(av[0], av[k as int]));
            return MalType::Bool(false);
        }
        k += 1;
    }
    MalType::Bool(true)
}

/// Wraps the arguments, as given, in a list.
pub fn list(args: Vec<MalType>) -> (r: MalType)
    ensures
        r@ == ValV::List(view_vals(args@)),
{
    MalType::List(args)
}

/// Whether every argument is a list.
pub fn list_question(args: &Vec<MalType>) -> (r: MalType)
    ensures
        r@ == ValV::Bool(
            forall|k: int| 0 <= k < view_vals(args@).len() ==> #[trigger] view_vals(args@)[k] is List,
        ),
{
    let ghost av = view_vals(args@);
    proof {
        crate::types::lemma_view_vals(args@);
    }
    let mut k: usize = 0;
    while k < args.len()
        invariant
            k <= args@.len(),
            av == view_vals(args@),
            av.len() == args@.len(),
            forall|j: int| 0 <= j < args@.len() ==> #[trigger] av[j] == (args@[j])@,
            forall|j: int| 0 <= j < k ==> #[trigger] av[j] is List,
        decreases args@.len() - k,
    {
        match &args[k] {
            MalType::List(_) => {},
            _ => {
                assert(!(av[k as int] is List));
                return MalType::Bool(false);
            },
        }
        k += 1;
    }
    MalType::Bool(true)
}

/// Whether a value is an empty collection.
pub open spec fn is_empty_val(v: ValV) -> bool {
    match v {
        ValV::List(x) => x.len() == 0,
        ValV::Vector(x) => x.len() == 0,
        ValV::Dict(d) => d.len() == 0,
        _ => false,
    }
}

/// Whether every argument is an empty collection.
pub fn empty_question(args: &Vec<MalType>) -> (r: MalType)
    ensures
        r@ == ValV::Bool(
            forall|k: int|
                0 <= k < view_vals(args@).len() ==> is_empty_val(#[trigger] view_vals(args@)[k]),
        ),
{
    let ghost av = view_vals(args@);
    proof {
        crate::types::lemma_view_vals(args@);
    }
    let mut k: usize = 0;
    while k < args.len()
        invariant
            k <= args@.len(),
            av == view_vals(args@),
            av.len() == args@.len(),
            forall|j: int| 0 <= j < args@.len() ==> #[trigger] av[j] == (args@[j])@,
            forall|j: int| 0 <= j < k ==> is_empty_val(#[trigger] av[j]),
        decreases args@.len() - k,
    {
        let empty = match &args[k] {
            MalType::List(x) => x.len() == 0,
            MalType::Vector(x) => x.len() == 0,
            MalType::Dict(d) => d.len() == 0,
            _ => false,
        };
        if !empty {
            proof {
                crate::types::lemma_view_vals(
                    match args@[k as int] {
                        MalType::List(x) => x@,
                        MalType::Vector(x) => x@,
                        _ => Seq::empty(),
                    },
                );
                crate::types::lemma_view_pairs(
                    match args@[k as int] {
                        MalType::Dict(d) => d@,
                        _ => Seq::empty(),
                    },
                );
            }
            assert(!is_empty_val(av[k as int]));
            return MalType::Bool(false);
        }
        proof {
            crate::types::lemma_view_vals(
                match args@[k as int] {
                    MalType::List(x) => x@,
                    MalType::Vector(x) => x@,
                    _ => Seq::empty(),
                },
            );
            crate::types::lemma_view_pairs(
                match args@[k as int] {
                    MalType::Dict(d) => d@,
                    _ => Seq::empty(),
                },
            );
        }
        k += 1;
    }
    MalType::Bool(true)
}

/// A collection length clamped into the 64-bit integer range.
pub open spec fn cap_i64(n: nat) -> i64 {
    if n <= i64::MAX {
        n as i64
    } else {
        i64::MAX
    }
}

/// How many entries one value has: collection lengths, zero for nil,
/// an error for anything else.
pub open spec fn count_one(v: ValV) -> ValV {
    match v {
        ValV::List(x) => ValV::Int(cap_i64(x.len())),
        ValV::Vector(x) => ValV::Int(cap_i64(x.len())),
        ValV::Nil => ValV::Int(0),
        ValV::Dict(d) => ValV::Int(cap_i64(d.len())),
        _ => ValV::Error("Type is not an enumerable"@),
    }
}

/// What `count` returns: the count of a single argument, or the list
/// of counts of several.
pub open spec fn count_result(args: Seq<ValV>) -> ValV {
    if args.len() == 1 {
        count_one(args[0])
    } else {
        ValV::List(args.map_values(|v: ValV| count_one(v)))
    }
}

fn count_one_x(v: &MalType) -> (r: MalType)
    ensures
        r@ == count_one(v@),
{
    let len: Option<usize> = match v {
        MalType::List(x) => Some(x.len()),
        MalType::Vector(x) => Some(x.len()),
        MalType::Nil => Some(0),
        MalType::Dict(d) => Some(d.len()),
        _ => None,
    };
    proof {
        match v {
            MalType::List(x) => crate::types::lemma_view_vals(x@),
            MalType::Vector(x) => crate::types::lemma_view_vals(x@),
            MalType::Dict(d) => crate::types::lemma_view_pairs(d@),
            _ => (),
        }
    }
    match len {
        Some(n) => {
            let wide: u64 = n as u64;
            if wide <= 9223372036854775807 {
                MalType::Int(wide as i64)
            } else {
                MalType::Int(i64::MAX)
            }
        },
        None => {
            let cs = crate::text::chars_of("Type is not an enumerable");
            MalType::Error(string_of(&cs))
        },
    }
}

/// Counts the entries of each argument.
pub fn count(args: &Vec<MalType>) -> (r: MalType)
    ensures
        r@ == count_result(view_vals(args@)),
{
    let ghost av = view_vals(args@);
    proof {
        crate::types::lemma_view_vals(args@);
    }
    if args.len() == 1 {
        return count_one_x(&args[0]);
    }
    let mut out: Vec<MalType> = Vec::new();
    let mut k: usize = 0;
    while k < args.len()
        invariant
            k <= args@.len(),
            av == view_vals(args@),
            av.len() == args@.len(),
            forall|j: int| 0 <= j < args@.len() ==> #[trigger] av[j] == (args@[j])@,
            out@.len() == k,
            forall|j: int| 0 <= j < k ==> (#[trigger] out@[j])@ == count_one(av[j]),
        decreases args@.len() - k,
    {
        out.push(count_one_x(&args[k]));
        k += 1;
    }
    let r = MalType::List(out);
    proof {
        crate::types::lemma_view_vals(out@);
        assert(view_vals(out@) =~= av.map_values(|v: ValV| count_one(v)));
    }
    r
}

/// Integer truncating division as the host wraps it: the one overflow
/// case yields the smallest integer.
pub open spec fn wrap_div(a: i64, b: i64) -> i64
    recommends
        b != 0,
{
    match a.checked_div(b) {
        Some(q) => q,
        None => i64::MIN,
    }
}

/// Folding integer addition over all arguments, stopping at the first
/// non-integer.
pub open spec fn fold_add_int(args: Seq<ValV>, i: int, acc: i64) -> ValV
    decreases args.len() - i,
{
    if i < 0 || i >= args.len() {
        ValV::Int(acc)
    } else {
        match args[i] {
            ValV::Int(v) => fold_add_int(
                args,
                i + 1,
                vstd::wrapping::i64_specs::wrapping_add(acc, v),
            ),
            other => ValV::Error(invalid_argument_msg(other)),
        }
    }
}

/// Folding string concatenation over all arguments.
pub open spec fn fold_add_str(args: Seq<ValV>, i: int, acc: Seq<char>) -> ValV
    decreases args.len() - i,
{
    if i < 0 || i >= args.len() {
        ValV::Str(acc)
    } else {
        match args[i] {
            ValV::Str(v) => fold_add_str(args, i + 1, acc + v),
            other => ValV::Error(invalid_argument_msg(other)),
        }
    }
}

/// Folding sequence concatenation over all arguments of one collection
/// kind.
pub open spec fn fold_add_seq(args: Seq<ValV>, i: int, acc: Seq<ValV>, vector: bool) -> ValV
    decreases args.len() - i,
{
    if i < 0 || i >= args.len() {
        if vector {
            ValV::Vector(acc)
        } else {
            ValV::List(acc)
        }
    } else {
        match (args[i], vector) {
            (ValV::List(v), false) => fold_add_seq(args, i + 1, acc + v, false),
            (ValV::Vector(v), true) => fold_add_seq(args, i + 1, acc + v, true),
            (other, _) => ValV::Error(invalid_argument_msg(other)),
        }
    }
}

/// What `+` returns: the kind of the first argument decides between
/// integer sum, string concatenation and sequence concatenation.
pub open spec fn add_result(args: Seq<ValV>) -> ValV {
    if args.len() == 0 {
        ValV::Error("Sum on empty list"@)
    } else {
        match args[0] {
            ValV::Int(_) => fold_add_int(args, 0, 0),
            ValV::Str(_) => fold_add_str(args, 0, Seq::empty()),
            ValV::List(_) => fold_add_seq(args, 0, Seq::empty(), false),
            ValV::Vector(_) => fold_add_seq(args, 0, Seq::empty(), true),
            t => ValV::Error("Unsupported type for '+': "@ + print_val(t, true)),
        }
    }
}

/// Folding subtraction of all later arguments from the accumulator.
pub open spec fn fold_sub_int(args: Seq<ValV>, i: int, acc: i64) -> ValV
    decreases args.len() - i,
{
    if i < 0 || i >= args.len() {
        ValV::Int(acc)
    } else {
        match args[i] {
            ValV::Int(v) => fold_sub_int(
                args,
                i + 1,
                vstd::wrapping::i64_specs::wrapping_sub(acc, v),
            ),
            other => ValV::Error(invalid_argument_msg(other)),
        }
    }
}

/// What `-` returns: the first argument alone, or it minus the rest.
pub open spec fn sub_result(args: Seq<ValV>) -> ValV {
    if args.len() == 0 {
        ValV::Error("Subtraction on empty list"@)
    } else {
        match args[0] {
            ValV::Int(v) => if args.len() == 1 {
                ValV::Int(v)
            } else {
                fold_sub_int(args, 1, v)
            },
            _ => ValV::Error("Unsupported type for '-'"@),
        }
    }
}

/// Folding multiplication over all arguments.
pub open spec fn fold_mul_int(args: Seq<ValV>, i: int, acc: i64) -> ValV
    decreases args.len() - i,
{
    if i < 0 || i >= args.len() {
        ValV::Int(acc)
    } else {
        match args[i] {
            ValV::Int(v) => fold_mul_int(
                args,
                i + 1,
                vstd::wrapping::i64_specs::wrapping_mul(acc, v),
            ),
            other => ValV::Error(invalid_argument_msg(other)),
        }
    }
}

/// What `*` returns.
pub open spec fn mult_result(args: Seq<ValV>) -> ValV {
    if args.len() == 0 {
        ValV::Error("Multiplication on empty list"@)
    } else {
        match args[0] {
            ValV::Int(_) => fold_mul_int(args, 0, 1),
            v => ValV::Error("Unsupported type for '*': "@ + print_val(v, true)),
        }
    }
}

/// Folding division of the accumulator by all later arguments; a zero
/// divisor is an error.
pub open spec fn fold_div_int(args: Seq<ValV>, i: int, acc: i64) -> ValV
    decreases args.len() - i,
{
    if i < 0 || i >= args.len() {
        ValV::Int(acc)
    } else {
        match args[i] {
            ValV::Int(v) => if v == 0 {
                ValV::Error("Division by zero"@)
            } else {
                fold_div_int(args, i + 1, wrap_div(acc, v))
            },
            other => ValV::Error(invalid_argument_msg(other)),
        }
    }
}

/// What `/` returns.
pub open spec fn div_result(args: Seq<ValV>) -> ValV {
    if args.len() == 0 {
        ValV::Error("Division on empty list"@)
    } else {
        match args[0] {
            ValV::Int(v) => if args.len() == 1 {
                ValV::Int(v)
            } else {
                fold_div_int(args, 1, v)
            },
            _ => ValV::Error("Unsupported type for '/'"@),
        }
    }
}

/// Sums the arguments: integers, strings, lists or vectors after the
/// first argument's kind.
pub fn add(args: &Vec<MalType>) -> (r: MalType)
    ensures
        r@ == add_result(view_vals(args@)),
{
    let ghost av = view_vals(args@);
    proof {
        crate::types::lemma_view_vals(args@);
    }
    if args.len() == 0 {
        let cs = crate::text::chars_of("Sum on empty list");
        return MalType::Error(string_of(&cs));
    }
    match &args[0] {
        MalType::Int(_) => {
            let mut acc: i64 = 0;
            let mut i: usize = 0;
            while i < args.len()
                invariant
                    i <= args@.len(),
                    av == view_vals(args@),
                    av.len() == args@.len(),
                    forall|j: int| 0 <= j < args@.len() ==> #[trigger] av[j] == (args@[j])@,
                    av.len() > 0,
                    av[0] is Int,
                    fold_add_int(av, 0, 0) == fold_add_int(av, i as int, acc),
                decreases args@.len() - i,
            {
                match &args[i] {
                    MalType::Int(v) => {
                        acc = acc.wrapping_add(*v);
                    },
                    other => {
                        return crate::types::invalid_argument_error(other.clone());
                    },
                }
                i += 1;
            }
            MalType::Int(acc)
        },
        MalType::String(_) => {
            let mut acc: Vec<char> = Vec::new();
            let mut i: usize = 0;
            proof {
                assert(acc@ =~= Seq::<char>::empty());
            }
            while i < args.len()
                invariant
                    i <= args@.len(),
                    av == view_vals(args@),
                    av.len() == args@.len(),
                    forall|j: int| 0 <= j < args@.len() ==> #[trigger] av[j] == (args@[j])@,
                    av.len() > 0,
                    av[0] is Str,
                    fold_add_str(av, 0, Seq::empty()) == fold_add_str(av, i as int, acc@),
                decreases args@.len() - i,
            {
                match &args[i] {
                    MalType::String(v) => {
                        let mut cs = crate::text::chars_of(v.as_str());
                        acc.append(&mut cs);
                    },
                    other => {
                        return crate::types::invalid_argument_error(other.clone());
                    },
                }
                i += 1;
            }
            MalType::String(string_of(&acc))
        },
        MalType::List(_) => {
            let v = add_concat(args, false);
            v
        },
        MalType::Vector(_) => {
            let v = add_concat(args, true);
            v
        },
        t => {
            let mut cs = crate::text::chars_of("Unsupported type for '+': ");
            let mut rendered = pr_chars(t, true);
            cs.append(&mut rendered);
            MalType::Error(string_of(&cs))
        },
    }
}

/// Concatenates list or vector arguments of one kind.
fn add_concat(args: &Vec<MalType>, vector: bool) -> (r: MalType)
    requires
        args@.len() > 0,
    ensures
        r@ == fold_add_seq(view_vals(args@), 0, Seq::empty(), vector),
{
    let ghost av = view_vals(args@);
    proof {
        crate::types::lemma_view_vals(args@);
    }
    let mut acc: Vec<MalType> = Vec::new();
    let mut i: usize = 0;
    proof {
        assert(view_vals(acc@) =~= Seq::<ValV>::empty());
    }
    while i < args.len()
        invariant
            i <= args@.len(),
            av == view_vals(args@),
            av.len() == args@.len(),
            forall|j: int| 0 <= j < args@.len() ==> #[trigger] av[j] == (args@[j])@,
            fold_add_seq(av, 0, Seq::empty(), vector) == fold_add_seq(
                av,
                i as int,
                view_vals(acc@),
                vector,
            ),
        decreases args@.len() - i,
    {
        let elems = match (&args[i], vector) {
            (MalType::List(v), false) => v,
            (MalType::Vector(v), true) => v,
            (other, _) => {
                return crate::types::invalid_argument_error(other.clone());
            },
        };
        let ghost pre = view_vals(acc@);
        let ghost ev = view_vals(elems@);
        let mut j: usize = 0;
        proof {
            crate::types::lemma_view_vals(elems@);
            assert(pre + ev.take(0) =~= pre);
        }
        while j < elems.len()
            invariant
                j <= elems@.len(),
                ev == view_vals(elems@),
                ev.len() == elems@.len(),
                forall|k: int| 0 <= k < elems@.len() ==> #[trigger] ev[k] == (elems@[k])@,
                view_vals(acc@) == pre + ev.take(j as int),
            decreases elems@.len() - j,
        {
            let ghost before = acc@;
            acc.push(elems[j].clone());
            proof {
                assert(acc@.drop_last() =~= before);
                assert(view_vals(acc@) =~= view_vals(before).push(ev[j as int]));
                assert(pre + ev.take(j + 1) =~= (pre + ev.take(j as int)).push(ev[j as int]));
            }
            j += 1;
        }
        proof {
            assert(ev.take(elems@.len() as int) =~= ev);
        }
        i += 1;
    }
    if vector {
        MalType::Vector(acc)
    } else {
        MalType::List(acc)
    }
}

/// Subtracts all later arguments from the first.
pub fn sub(args: &Vec<MalType>) -> (r: MalType)
    ensures
        r@ == sub_result(view_vals(args@)),
{
    let ghost av = view_vals(args@);
    proof {
        crate::types::lemma_view_vals(args@);
    }
    if args.len() == 0 {
        let cs = crate::text::chars_of("Subtraction on empty list");
        return MalType::Error(string_of(&cs));
    }
    let first: i64 = match &args[0] {
        MalType::Int(v) => *v,
        _ => {
            let cs = crate::text::chars_of("Unsupported type for '-'");
            return MalType::Error(string_of(&cs));
        },
    };
    if args.len() == 1 {
        return MalType::Int(first);
    }
    let mut acc: i64 = first;
    let mut i: usize = 1;
    while i < args.len()
        invariant
            1 <= i <= args@.len(),
            av == view_vals(args@),
            av.len() == args@.len(),
            forall|j: int| 0 <= j < args@.len() ==> #[trigger] av[j] == (args@[j])@,
            av.len() >= 2,
            av[0] == ValV::Int(first),
            fold_sub_int(av, 1, first) == fold_sub_int(av, i as int, acc),
        decreases args@.len() - i,
    {
        match &args[i] {
            MalType::Int(v) => {
                acc = acc.wrapping_sub(*v);
            },
            other => {
                return crate::types::invalid_argument_error(other.clone());
            },
        }
        i += 1;
    }
    MalType::Int(acc)
}

/// Multiplies all arguments.
pub fn mult(args: &Vec<MalType>) -> (r: MalType)
    ensures
        r@ == mult_result(view_vals(args@)),
{
    let ghost av = view_vals(args@);
    proof {
        crate::types::lemma_view_vals(args@);
    }
    if args.len() == 0 {
        let cs = crate::text::chars_of("Multiplication on empty list");
        return MalType::Error(string_of(&cs));
    }
    match &args[0] {
        MalType::Int(_) => {},
        v => {
            let mut cs = crate::text::chars_of("Unsupported type for '*': ");
            let mut rendered = pr_chars(v, true);
            cs.append(&mut rendered);
            return MalType::Error(string_of(&cs));
        },
    }
    let mut acc: i64 = 1;
    let mut i: usize = 0;
    while i < args.len()
        invariant
            i <= args@.len(),
            av == view_vals(args@),
            av.len() == args@.len(),
            forall|j: int| 0 <= j < args@.len() ==> #[trigger] av[j] == (args@[j])@,
            av.len() > 0,
            av[0] is Int,
            fold_mul_int(av, 0, 1) == fold_mul_int(av, i as int, acc),
        decreases args@.len() - i,
    {
        match &args[i] {
            MalType::Int(v) => {
                acc = acc.wrapping_mul(*v);
            },
            other => {
                return crate::types::invalid_argument_error(other.clone());
            },
        }
        i += 1;
    }
    MalType::Int(acc)
}

/// Divides the first argument by all later ones; dividing by zero is
/// an error.
pub fn div(args: &Vec<MalType>) -> (r: MalType)
    ensures
        r@ == div_result(view_vals(args@)),
{
    let ghost av = view_vals(args@);
    proof {
        crate::types::lemma_view_vals(args@);
    }
    if args.len() == 0 {
        let cs = crate::text::chars_of("Division on empty list");
        return MalType::Error(string_of(&cs));
    }
    let first: i64 = match &args[0] {
        MalType::Int(v) => *v,
        _ => {
            let cs = crate::text::chars_of("Unsupported type for '/'");
            return MalType::Error(string_of(&cs));
        },
    };
    if args.len() == 1 {
        return MalType::Int(first);
    }
    let mut acc: i64 = first;
    let mut i: usize = 1;
    while i < args.len()
        invariant
            1 <= i <= args@.len(),
            av == view_vals(args@),
            av.len() == args@.len(),
            forall|j: int| 0 <= j < args@.len() ==> #[trigger] av[j] == (args@[j])@,
            av.len() >= 2,
            av[0] == ValV::Int(first),
            fold_div_int(av, 1, first) == fold_div_int(av, i as int, acc),
        decreases args@.len() - i,
    {
        match &args[i] {
            MalType::Int(v) => {
                if *v == 0 {
                    return crate::types::division_by_zero_error();
                }
                acc = match acc.checked_div(*v) {
                    Some(q) => q,
                    None => i64::MIN,
                };
            },
            other => {
                return crate::types::invalid_argument_error(other.clone());
            },
        }
        i += 1;
    }
    MalType::Int(acc)
}

/// Space-joined readable or display rendering of the arguments.
pub open spec fn pr_join(args: Seq<ValV>, readable: bool, sep: Seq<char>) -> Seq<char>
    decreases args.len(),
{
    if args.len() == 0 {
        Seq::empty()
    } else if args.len() == 1 {
        print_val(args[0], readable)
    } else {
        print_val(args[0], readable) + sep + pr_join(args.drop_first(), readable, sep)
    }
}

proof fn lemma_pr_join_snoc(args: Seq<ValV>, v: ValV, readable: bool, sep: Seq<char>)
    ensures
        pr_join(args.push(v), readable, sep) == if args.len() == 0 {
            print_val(v, readable)
        } else {
            pr_join(args, readable, sep) + sep + print_val(v, readable)
        },
    decreases args.len(),
{
    let s = args.push(v);
    if args.len() == 0 {
        assert(s.len() == 1);
        assert(s[0] == v);
    } else {
        assert(s[0] == args[0]);
        assert(s.drop_first() =~= args.drop_first().push(v));
        lemma_pr_join_snoc(args.drop_first(), v, readable, sep);
        if args.len() == 1 {
            assert(args.drop_first().len() == 0);
            assert(pr_join(s, readable, sep) =~= pr_join(args, readable, sep) + sep + print_val(
                v,
                readable,
            ));
        } else {
            assert(pr_join(s, readable, sep) =~= pr_join(args, readable, sep) + sep + print_val(
                v,
                readable,
            ));
        }
    }
}

/// Joins the renderings of the arguments with the separator.
fn join_args(args: &Vec<MalType>, readable: bool, sep: Option<char>) -> (r: Vec<char>)
    ensures
        r@ == pr_join(
            view_vals(args@),
            readable,
            match sep {
                Some(c) => seq![c],
                None => Seq::empty(),
            },
        ),
{
    let ghost av = view_vals(args@);
    let ghost sp = match sep {
        Some(c) => seq![c],
        None => Seq::<char>::empty(),
    };
    proof {
        crate::types::lemma_view_vals(args@);
    }
    let mut out: Vec<char> = Vec::new();
    let mut i: usize = 0;
    proof {
        assert(pr_join(av.take(0), readable, sp) =~= Seq::<char>::empty());
        assert(out@ =~= pr_join(av.take(0), readable, sp));
    }
    while i < args.len()
        invariant
            i <= args@.len(),
            av == view_vals(args@),
            av.len() == args@.len(),
            sp == match sep {
                Some(c) => seq![c],
                None => Seq::<char>::empty(),
            },
            forall|j: int| 0 <= j < args@.len() ==> #[trigger] av[j] == (args@[j])@,
            out@ == pr_join(av.take(i as int), readable, sp),
        decreases args@.len() - i,
    {
        if i > 0 {
            match sep {
                Some(c) => {
                    out.push(c);
                },
                None => {},
            }
        }
        let mut piece = pr_chars(&args[i], readable);
        out.append(&mut piece);
        proof {
            assert(av.take(i + 1) =~= av.take(i as int).push(av[i as int]));
            lemma_pr_join_snoc(av.take(i as int), av[i as int], readable, sp);
            assert(out@ =~= pr_join(av.take(i + 1), readable, sp));
        }
        i += 1;
    }
    proof {
        assert(av.take(args@.len() as int) =~= av);
    }
    out
}

/// Renders the arguments readably, space-joined, as a string value.
pub fn pr_str_(args: &Vec<MalType>) -> (r: MalType)
    ensures
        r@ == ValV::Str(pr_join(view_vals(args@), true, seq![' '])),
{
    let cs = join_args(args, true, Some(' '));
    MalType::String(string_of(&cs))
}

/// Renders the arguments in display mode, joined tight, as a string
/// value.
pub fn str_(args: &Vec<MalType>) -> (r: MalType)
    ensures
        r@ == ValV::Str(pr_join(view_vals(args@), false, Seq::empty())),
{
    let cs = join_args(args, false, None);
    MalType::String(string_of(&cs))
}

/// Prints the arguments readably as one line of output; yields nil.
pub fn prn(args: &Vec<MalType>, env: &mut Env) -> (r: MalType)
    ensures
        final(env)@.frames == old(env)@.frames,
        final(env)@.out == old(env)@.out.push(pr_join(view_vals(args@), true, seq![' '])),
        r@ == ValV::Nil,
{
    let cs = join_args(args, true, Some(' '));
    env.emit(string_of(&cs));
    MalType::Nil
}

/// Prints the arguments in display mode, escape sequences resolved, as
/// one line of output; yields nil.
pub fn println_(args: &Vec<MalType>, env: &mut Env) -> (r: MalType)
    ensures
        final(env)@.frames == old(env)@.frames,
        final(env)@.out == old(env)@.out.push(pr_join(view_vals(args@), false, seq![' '])),
        r@ == ValV::Nil,
{
    let cs = join_args(args, false, Some(' '));
    env.emit(string_of(&cs));
    MalType::Nil
}

/// What each native returns, as a function of its argument views.
pub open spec fn native_result(f: MalFunction, args: Seq<ValV>) -> ValV {
    match f {
        MalFunction::Add => add_result(args),
        MalFunction::Sub => sub_result(args),
        MalFunction::Mult => mult_result(args),
        MalFunction::Div => div_result(args),
        MalFunction::Less => cmp_result(CmpOp::Less, args),
        MalFunction::LessEq => cmp_result(CmpOp::LessEq, args),
        MalFunction::Bigger => cmp_result(CmpOp::Bigger, args),
        MalFunction::BiggerEq => cmp_result(CmpOp::BiggerEq, args),
        MalFunction::Equals => equals_result(args),
        MalFunction::NotEquals => cmp_result(CmpOp::NotEq, args),
        MalFunction::MakeList => ValV::List(args),
        MalFunction::ListQuestion => ValV::Bool(
            forall|k: int| 0 <= k < args.len() ==> #[trigger] args[k] is List,
        ),
        MalFunction::EmptyQuestion => ValV::Bool(
            forall|k: int| 0 <= k < args.len() ==> is_empty_val(#[trigger] args[k]),
        ),
        MalFunction::Count => count_result(args),
        MalFunction::Prn => ValV::Nil,
        MalFunction::PrStr => ValV::Str(pr_join(args, true, seq![' '])),
        MalFunction::Str => ValV::Str(pr_join(args, false, Seq::empty())),
        MalFunction::Println => ValV::Nil,
    }
}

/// What each native prints: one line for the two printing natives,
/// nothing for the rest.
pub open spec fn native_output(f: MalFunction, args: Seq<ValV>) -> Seq<Seq<char>> {
    match f {
        MalFunction::Prn => seq![pr_join(args, true, seq![' '])],
        MalFunction::Println => seq![pr_join(args, false, seq![' '])],
        _ => Seq::empty(),
    }
}

/// Invokes one native on evaluated arguments. Only the printing
/// natives touch the environment, and only its output.
pub fn call_function(f: MalFunction, args: Vec<MalType>, env: &mut Env) -> (r: MalType)
    ensures
        final(env)@.frames == old(env)@.frames,
        final(env)@.out == old(env)@.out + native_output(f, view_vals(args@)),
        r@ == native_result(f, view_vals(args@)),
{
    proof {
        assert(old(env)@.out + Seq::<Seq<char>>::empty() =~= old(env)@.out);
    }
    match f {
        MalFunction::Add => crate::natives::add(&args),
        MalFunction::Sub => crate::natives::sub(&args),
        MalFunction::Mult => mult(&args),
        MalFunction::Div => div(&args),
        MalFunction::Less => less(&args),
        MalFunction::LessEq => less_eq(&args),
        MalFunction::Bigger => bigger(&args),
        MalFunction::BiggerEq => bigger_eq(&args),
        MalFunction::Equals => equals(&args),
        MalFunction::NotEquals => not_equals(&args),
        MalFunction::MakeList => list(args),
        MalFunction::ListQuestion => list_question(&args),
        MalFunction::EmptyQuestion => empty_question(&args),
        MalFunction::Count => count(&args),
        MalFunction::Prn => {
            let r = prn(&args, env);
            proof {
                assert(final(env)@.out =~= old(env)@.out + native_output(f, view_vals(args@)));
            }
            r
        },
        MalFunction::PrStr => pr_str_(&args),
        MalFunction::Str => str_(&args),
        MalFunction::Println => {
            let r = println_(&args, env);
            proof {
                assert(final(env)@.out =~= old(env)@.out + native_output(f, view_vals(args@)));
            }
            r
        },
    }
}

/// The names and values the base environment binds.
pub open spec fn base_bindings() -> Seq<(Seq<char>, ValV)> {
    seq![
        ("+"@, ValV::Function(MalFunction::Add)),
        ("-"@, ValV::Function(MalFunction::Sub)),
        ("*"@, ValV::Function(MalFunction::Mult)),
        ("/"@, ValV::Function(MalFunction::Div)),
        ("<"@, ValV::Function(MalFunction::Less)),
        ("<="@, ValV::Function(MalFunction::LessEq)),
        (">"@, ValV::Function(MalFunction::Bigger)),
        (">="@, ValV::Function(MalFunction::BiggerEq)),
        ("="@, ValV::Function(MalFunction::Equals)),
        ("!="@, ValV::Function(MalFunction::NotEquals)),
        ("list"@, ValV::Function(MalFunction::MakeList)),
        ("list?"@, ValV::Function(MalFunction::ListQuestion)),
        ("empty?"@, ValV::Function(MalFunction::EmptyQuestion)),
        ("count"@, ValV::Function(MalFunction::Count)),
        ("prn"@, ValV::Function(MalFunction::Prn)),
        ("pr-str"@, ValV::Function(MalFunction::PrStr)),
        ("str"@, ValV::Function(MalFunction::Str)),
        ("println"@, ValV::Function(MalFunction::Println)),
    ]
}

/// The base environment: one root frame binding every native, with no
/// output yet.
pub fn get_env() -> (e: Env)
    ensures
        e@.frames.len() == 1,
        e@.frames[0].parent is None,
        e@.frames[0].entries == base_bindings(),
        e@.out == Seq::<Seq<char>>::empty(),
{
    let mut data: Vec<(String, MalType)> = Vec::new();
    data.push((string_of(&crate::text::chars_of("+")), MalType::Function(MalFunction::Add)));
    data.push((string_of(&crate::text::chars_of("-")), MalType::Function(MalFunction::Sub)));
    data.push((string_of(&crate::text::chars_of("*")), MalType::Function(MalFunction::Mult)));
    data.push((string_of(&crate::text::chars_of("/")), MalType::Function(MalFunction::Div)));
    data.push((string_of(&crate::text::chars_of("<")), MalType::Function(MalFunction::Less)));
    data.push((string_of(&crate::text::chars_of("<=")), MalType::Function(MalFunction::LessEq)));
    data.push((string_of(&crate::text::chars_of(">")), MalType::Function(MalFunction::Bigger)));
    data.push((string_of(&crate::text::chars_of(">=")), MalType::Function(MalFunction::BiggerEq)));
    data.push((string_of(&crate::text::chars_of("=")), MalType::Function(MalFunction::Equals)));
    data.push((string_of(&crate::text::chars_of("!=")), MalType::Function(MalFunction::NotEquals)));
    data.push((string_of(&crate::text::chars_of("list")), MalType::Function(MalFunction::MakeList)));
    data.push((string_of(&crate::text::chars_of("list?")), MalType::Function(MalFunction::ListQuestion)));
    data.push((string_of(&crate::text::chars_of("empty?")), MalType::Function(MalFunction::EmptyQuestion)));
    data.push((string_of(&crate::text::chars_of("count")), MalType::Function(MalFunction::Count)));
    data.push((string_of(&crate::text::chars_of("prn")), MalType::Function(MalFunction::Prn)));
    data.push((string_of(&crate::text::chars_of("pr-str")), MalType::Function(MalFunction::PrStr)));
    data.push((string_of(&crate::text::chars_of("str")), MalType::Function(MalFunction::Str)));
    data.push((string_of(&crate::text::chars_of("println")), MalType::Function(MalFunction::Println)));
    let e = Env::from(data);
    proof {
        assert(e@.frames[0].entries =~= base_bindings());
    }
    e
}

proof fn lemma_fold_seq_wf(args: Seq<ValV>, i: int, acc: Seq<ValV>, vector: bool, n: int)
    requires
        forall|k: int| 0 <= k < args.len() ==> crate::env::val_wf(#[trigger] args[k], n),
        forall|k: int| 0 <= k < acc.len() ==> crate::env::val_wf(#[trigger] acc[k], n),
    ensures
        crate::env::val_wf(fold_add_seq(args, i, acc, vector), n),
    decreases args.len() - i,
{
    if 0 <= i < args.len() {
        match (args[i], vector) {
            (ValV::List(v), false) => {
                assert(forall|k: int|
                    0 <= k < (acc + v).len() ==> crate::env::val_wf(#[trigger] (acc + v)[k], n));
                lemma_fold_seq_wf(args, i + 1, acc + v, vector, n);
            },
            (ValV::Vector(v), true) => {
                assert(forall|k: int|
                    0 <= k < (acc + v).len() ==> crate::env::val_wf(#[trigger] (acc + v)[k], n));
                lemma_fold_seq_wf(args, i + 1, acc + v, vector, n);
            },
            _ => {},
        }
    }
}

proof fn lemma_fold_int_shape(args: Seq<ValV>, i: int, acc: i64)
    ensures
        fold_add_int(args, i, acc) is Int || fold_add_int(args, i, acc) is Error,
        fold_sub_int(args, i, acc) is Int || fold_sub_int(args, i, acc) is Error,
        fold_mul_int(args, i, acc) is Int || fold_mul_int(args, i, acc) is Error,
        fold_div_int(args, i, acc) is Int || fold_div_int(args, i, acc) is Error,
    decreases args.len() - i,
{
    if 0 <= i < args.len() {
        match args[i] {
            ValV::Int(v) => {
                lemma_fold_int_shape(args, i + 1, vstd::wrapping::i64_specs::wrapping_add(acc, v));
                lemma_fold_int_shape(args, i + 1, vstd::wrapping::i64_specs::wrapping_sub(acc, v));
                lemma_fold_int_shape(args, i + 1, vstd::wrapping::i64_specs::wrapping_mul(acc, v));
                if v != 0 {
                    lemma_fold_int_shape(args, i + 1, wrap_div(acc, v));
                }
            },
            _ => {},
        }
    }
}

proof fn lemma_fold_str_shape(args: Seq<ValV>, i: int, acc: Seq<char>)
    ensures
        fold_add_str(args, i, acc) is Str || fold_add_str(args, i, acc) is Error,
    decreases args.len() - i,
{
    if 0 <= i < args.len() {
        match args[i] {
            ValV::Str(v) => {
                lemma_fold_str_shape(args, i + 1, acc + v);
            },
            _ => {},
        }
    }
}

proof fn lemma_fold_seq_shape(args: Seq<ValV>, i: int, acc: Seq<ValV>, vector: bool)
    ensures
        fold_add_seq(args, i, acc, vector) is List || fold_add_seq(args, i, acc, vector) is Vector
            || fold_add_seq(args, i, acc, vector) is Error,
    decreases args.len() - i,
{
    if 0 <= i < args.len() {
        match (args[i], vector) {
            (ValV::List(v), false) => {
                lemma_fold_seq_shape(args, i + 1, acc + v, vector);
            },
            (ValV::Vector(v), true) => {
                lemma_fold_seq_shape(args, i + 1, acc + v, vector);
            },
            _ => {},
        }
    }
}

/// A native's result mentions only frames its arguments already
/// mentioned.
pub proof fn lemma_native_wf(f: MalFunction, args: Seq<ValV>, n: int)
    requires
        forall|k: int| 0 <= k < args.len() ==> crate::env::val_wf(#[trigger] args[k], n),
    ensures
        crate::env::val_wf(native_result(f, args), n),
{
    match f {
        MalFunction::Add => {
            if args.len() > 0 {
                match args[0] {
                    ValV::List(_) => {
                        lemma_fold_seq_wf(args, 0, Seq::empty(), false, n);
                        lemma_fold_seq_shape(args, 0, Seq::empty(), false);
                    },
                    ValV::Vector(_) => {
                        lemma_fold_seq_wf(args, 0, Seq::empty(), true, n);
                        lemma_fold_seq_shape(args, 0, Seq::empty(), true);
                    },
                    ValV::Int(_) => {
                        lemma_fold_int_shape(args, 0, 0);
                    },
                    ValV::Str(_) => {
                        lemma_fold_str_shape(args, 0, Seq::empty());
                    },
                    _ => {},
                }
            }
        },
        MalFunction::Sub => {
            if args.len() > 1 {
                match args[0] {
                    ValV::Int(v) => {
                        lemma_fold_int_shape(args, 1, v);
                    },
                    _ => {},
                }
            }
        },
        MalFunction::Mult => {
            if args.len() > 0 {
                match args[0] {
                    ValV::Int(_) => {
                        lemma_fold_int_shape(args, 0, 1);
                    },
                    _ => {},
                }
            }
        },
        MalFunction::Div => {
            if args.len() > 1 {
                match args[0] {
                    ValV::Int(v) => {
                        lemma_fold_int_shape(args, 1, v);
                    },
                    _ => {},
                }
            }
        },
        MalFunction::Count => {
            if args.len() != 1 {
                let mapped = args.map_values(|v: ValV| count_one(v));
                assert(forall|k: int|
                    0 <= k < mapped.len() ==> crate::env::val_wf(#[trigger] mapped[k], n));
            }
        },
        _ => {},
    }
}

} // verus!
