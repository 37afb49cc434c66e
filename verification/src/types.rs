//! The tagged value model: runtime values, the restricted hashable
//! subset usable as map keys, user-defined function values, and the
//! spec-level mirror of all three that contracts are written over.
use vstd::prelude::*;

verus! {

broadcast use vstd::std_specs::vec::group_vec_axioms;

/// A native builtin, invoked by the evaluator through a fixed table.
#[derive(Clone, Copy, Debug, PartialEq, Eq, Structural)]
pub enum MalFunction {
    Add,
    Sub,
    Mult,
    Div,
    Less,
    LessEq,
    Bigger,
    BiggerEq,
    Equals,
    NotEquals,
    MakeList,
    ListQuestion,
    EmptyQuestion,
    Count,
    Prn,
    PrStr,
    Str,
    Println,
}

/// A user-defined function: parameter names, a body expression, and the
/// frame it captured once it escaped its defining scope (an index into
/// the environment's frame arena).
#[derive(Debug)]
pub struct MalFn {
    pub args: Vec<String>,
    pub body: Box<MalType>,
    pub env: Option<usize>,
    pub is_variadic: bool,
}

/// A runtime value.
#[derive(Debug)]
pub enum MalType {
    Nil,
    Bool(bool),
    Int(i64),
    Symbol(String),
    KeyWord(String),
    String(String),
    Error(String),
    List(Vec<MalType>),
    Dict(Vec<(MalHashable, MalType)>),
    Vector(Vec<MalType>),
    Function(MalFunction),
    Fn(MalFn),
}

/// The subset of values usable as map keys.
#[derive(Debug)]
pub enum MalHashable {
    Nil,
    Bool(bool),
    Int(i64),
    Symbol(String),
    KeyWord(String),
    String(String),
}

/// Returned when a value outside the hashable subset is used as a key.
#[derive(Debug)]
pub struct HashableConvertError;

/// Spec-level mirror of `MalFn`.
#[verifier::ext_equal]
pub struct FnV {
    pub args: Seq<Seq<char>>,
    pub body: Box<ValV>,
    pub env: Option<int>,
    pub is_variadic: bool,
}

/// Spec-level mirror of `MalType`: text as `Seq<char>`, sequences as
/// `Seq`, so contracts can speak of values mathematically.
#[verifier::ext_equal]
pub enum ValV {
    Nil,
    Bool(bool),
    Int(i64),
    Symbol(Seq<char>),
    KeyWord(Seq<char>),
    Str(Seq<char>),
    Error(Seq<char>),
    List(Seq<ValV>),
    Dict(Seq<(HashableV, ValV)>),
    Vector(Seq<ValV>),
    Function(MalFunction),
    Fn(FnV),
}

/// Spec-level mirror of `MalHashable`.
#[verifier::ext_equal]
pub enum HashableV {
    Nil,
    Bool(bool),
    Int(i64),
    Symbol(Seq<char>),
    KeyWord(Seq<char>),
    Str(Seq<char>),
}

pub open spec fn view_strings(s: Seq<String>) -> Seq<Seq<char>> {
    s.map_values(|x: String| x@)
}

pub open spec fn view_hashable(h: MalHashable) -> HashableV {
    match h {
        MalHashable::Nil => HashableV::Nil,
        MalHashable::Bool(b) => HashableV::Bool(b),
        MalHashable::Int(i) => HashableV::Int(i),
        MalHashable::Symbol(s) => HashableV::Symbol(s@),
        MalHashable::KeyWord(s) => HashableV::KeyWord(s@),
        MalHashable::String(s) => HashableV::Str(s@),
    }
}

pub open spec fn view_val(v: MalType) -> ValV
    decreases v,
{
    match v {
        MalType::Nil => ValV::Nil,
        MalType::Bool(b) => ValV::Bool(b),
        MalType::Int(i) => ValV::Int(i),
        MalType::Symbol(s) => ValV::Symbol(s@),
        MalType::KeyWord(s) => ValV::KeyWord(s@),
        MalType::String(s) => ValV::Str(s@),
        MalType::Error(s) => ValV::Error(s@),
        MalType::List(xs) => ValV::List(view_vals(xs@)),
        MalType::Vector(xs) => ValV::Vector(view_vals(xs@)),
        MalType::Dict(ps) => ValV::Dict(view_pairs(ps@)),
        MalType::Function(f) => ValV::Function(f),
        MalType::Fn(f) => ValV::Fn(
            FnV {
                args: view_strings(f.args@),
                body: Box::new(view_val(*f.body)),
                env: match f.env {
                    Some(i) => Some(i as int),
                    None => None,
                },
                is_variadic: f.is_variadic,
            },
        ),
    }
}

pub open spec fn view_vals(s: Seq<MalType>) -> Seq<ValV>
    decreases s,
{
    if s.len() == 0 {
        Seq::empty()
    } else {
        view_vals(s.drop_last()).push(view_val(s.last()))
    }
}

pub open spec fn view_pairs(s: Seq<(MalHashable, MalType)>) -> Seq<(HashableV, ValV)>
    decreases s,
{
    if s.len() == 0 {
        Seq::empty()
    } else {
        view_pairs(s.drop_last()).push((view_hashable(s.last().0), view_val(s.last().1)))
    }
}

impl View for MalType {
    type V = ValV;

    open spec fn view(&self) -> ValV {
        view_val(*self)
    }
}

impl View for MalHashable {
    type V = HashableV;

    open spec fn view(&self) -> HashableV {
        view_hashable(*self)
    }
}

impl View for MalFn {
    type V = FnV;

    open spec fn view(&self) -> FnV {
        FnV {
            args: view_strings(self.args@),
            body: Box::new(view_val(*self.body)),
            env: match self.env {
                Some(i) => Some(i as int),
                None => None,
            },
            is_variadic: self.is_variadic,
        }
    }
}

/// `view_vals` is the element-wise view.
pub proof fn lemma_view_vals(s: Seq<MalType>)
    ensures
        view_vals(s).len() == s.len(),
        forall|i: int| 0 <= i < s.len() ==> #[trigger] view_vals(s)[i] == view_val(s[i]),
    decreases s,
{
    if s.len() > 0 {
        lemma_view_vals(s.drop_last());
        assert(forall|i: int|
            0 <= i < s.len() - 1 ==> s.drop_last()[i] == #[trigger] s[i]);
    }
}

/// `view_pairs` is the element-wise view.
pub proof fn lemma_view_pairs(s: Seq<(MalHashable, MalType)>)
    ensures
        view_pairs(s).len() == s.len(),
        forall|i: int|
            0 <= i < s.len() ==> #[trigger] view_pairs(s)[i] == (
            view_hashable(s[i].0),
            view_val(s[i].1),
            ),
    decreases s,
{
    if s.len() > 0 {
        lemma_view_pairs(s.drop_last());
        assert(forall|i: int|
            0 <= i < s.len() - 1 ==> s.drop_last()[i] == #[trigger] s[i]);
    }
}

/// What a hashable key stands for as an ordinary value.
pub open spec fn hashable_as_val(h: HashableV) -> ValV {
    match h {
        HashableV::Nil => ValV::Nil,
        HashableV::Bool(b) => ValV::Bool(b),
        HashableV::Int(i) => ValV::Int(i),
        HashableV::Symbol(s) => ValV::Symbol(s),
        HashableV::KeyWord(s) => ValV::KeyWord(s),
        HashableV::Str(s) => ValV::Str(s),
    }
}

/// Whether a value lies in the hashable subset.
pub open spec fn is_hashable(v: ValV) -> bool {
    match v {
        ValV::Nil => true,
        ValV::Bool(_) => true,
        ValV::Int(_) => true,
        ValV::Symbol(_) => true,
        ValV::KeyWord(_) => true,
        ValV::Str(_) => true,
        _ => false,
    }
}

/// The key a hashable value converts to.
pub open spec fn as_hashable(v: ValV) -> HashableV
    recommends
        is_hashable(v),
{
    match v {
        ValV::Nil => HashableV::Nil,
        ValV::Bool(b) => HashableV::Bool(b),
        ValV::Int(i) => HashableV::Int(i),
        ValV::Symbol(s) => HashableV::Symbol(s),
        ValV::KeyWord(s) => HashableV::KeyWord(s),
        ValV::Str(s) => HashableV::Str(s),
        _ => HashableV::Nil,
    }
}

impl MalHashable {
    /// Converts a value into a map key; fails exactly on values outside
    /// the hashable subset.
    pub fn to_hashable(t: MalType) -> (r: Result<MalHashable, HashableConvertError>)
        ensures
            match r {
                Ok(h) => is_hashable(t@) && h@ == as_hashable(t@),
                Err(_) => !is_hashable(t@),
            },
    {
        match t {
            MalType::Nil => Ok(MalHashable::Nil),
            MalType::Int(i) => Ok(MalHashable::Int(i)),
            MalType::Bool(b) => Ok(MalHashable::Bool(b)),
            MalType::Symbol(s) => Ok(MalHashable::Symbol(s)),
            MalType::String(s) => Ok(MalHashable::String(s)),
            MalType::KeyWord(s) => Ok(MalHashable::KeyWord(s)),
            _ => Err(HashableConvertError),
        }
    }

    /// The ordinary value a key stands for.
    pub fn to_mal_type(self: &Self) -> (r: MalType)
        ensures
            r@ == hashable_as_val(self@),
    {
        match self {
            MalHashable::Nil => MalType::Nil,
            MalHashable::String(s) => MalType::String(s.clone()),
            MalHashable::Symbol(s) => MalType::Symbol(s.clone()),
            MalHashable::KeyWord(s) => MalType::KeyWord(s.clone()),
            MalHashable::Bool(b) => MalType::Bool(*b),
            MalHashable::Int(i) => MalType::Int(*i),
        }
    }

    /// Key equality, by underlying value.
    pub fn key_equal(&self, other: &MalHashable) -> (r: bool)
        ensures
            r == (self@ == other@),
    {
        match (self, other) {
            (MalHashable::Nil, MalHashable::Nil) => true,
            (MalHashable::Bool(a), MalHashable::Bool(b)) => *a == *b,
            (MalHashable::Int(a), MalHashable::Int(b)) => *a == *b,
            (MalHashable::Symbol(a), MalHashable::Symbol(b)) => *a == *b,
            (MalHashable::KeyWord(a), MalHashable::KeyWord(b)) => *a == *b,
            (MalHashable::String(a), MalHashable::String(b)) => *a == *b,
            _ => false,
        }
    }
}

/// The message of a wrong-argument error, naming the offending value.
pub open spec fn invalid_argument_msg(v: ValV) -> Seq<char> {
    "Invalid argument: "@ + crate::printer::print_val(v, true)
}

/// The message of an arity error.
pub open spec fn param_len_msg(got: nat, expected: nat) -> Seq<char> {
    "Invalid parameter length: got "@ + crate::text::dec_nat(got) + ", expected "@
        + crate::text::dec_nat(expected) + seq!['.']
}

/// An error value naming an argument of the wrong kind.
pub fn invalid_argument_error(who: MalType) -> (r: MalType)
    ensures
        r@ == ValV::Error(invalid_argument_msg(who@)),
{
    let mut cs = crate::text::chars_of("Invalid argument: ");
    let mut rendered = crate::printer::pr_chars(&who, true);
    cs.append(&mut rendered);
    MalType::Error(crate::text::string_of(&cs))
}

/// The error value for division by zero.
pub fn division_by_zero_error() -> (r: MalType)
    ensures
        r@ == ValV::Error("Division by zero"@),
{
    let cs = crate::text::chars_of("Division by zero");
    MalType::Error(crate::text::string_of(&cs))
}

/// An error value for a call with the wrong number of arguments.
pub fn invalid_parameter_length_error(got: usize, expected: usize) -> (r: MalType)
    ensures
        r@ == ValV::Error(param_len_msg(got as nat, expected as nat)),
{
    let mut cs = crate::text::chars_of("Invalid parameter length: got ");
    let mut g = crate::text::u64_chars(got as u64);
    cs.append(&mut g);
    let mut mid = crate::text::chars_of(", expected ");
    cs.append(&mut mid);
    let mut e = crate::text::u64_chars(expected as u64);
    cs.append(&mut e);
    cs.push('.');
    proof {
        assert(cs@ =~= param_len_msg(got as nat, expected as nat));
    }
    MalType::Error(crate::text::string_of(&cs))
}

/// Deep copy of a value, preserving its view exactly.
fn copy_val(v: &MalType) -> (r: MalType)
    ensures
        r@ == v@,
    decreases *v,
{
    match v {
        MalType::Nil => MalType::Nil,
        MalType::Bool(b) => MalType::Bool(*b),
        MalType::Int(i) => MalType::Int(*i),
        MalType::Symbol(s) => MalType::Symbol(s.clone()),
        MalType::KeyWord(s) => MalType::KeyWord(s.clone()),
        MalType::String(s) => MalType::String(s.clone()),
        MalType::Error(s) => MalType::Error(s.clone()),
        MalType::List(xs) => MalType::List(copy_vals(xs)),
        MalType::Vector(xs) => MalType::Vector(copy_vals(xs)),
        MalType::Dict(ps) => MalType::Dict(copy_pairs(ps)),
        MalType::Function(f) => MalType::Function(*f),
        MalType::Fn(f) => MalType::Fn(
            MalFn {
                args: copy_strings(&f.args),
                body: Box::new(copy_val(&*f.body)),
                env: f.env,
                is_variadic: f.is_variadic,
            },
        ),
    }
}

/// Deep copy of a sequence of values.
fn copy_vals(xs: &Vec<MalType>) -> (r: Vec<MalType>)
    ensures
        view_vals(r@) == view_vals(xs@),
        r@.len() == xs@.len(),
        forall|i: int| 0 <= i < xs@.len() ==> (#[trigger] r@[i])@ == xs@[i]@,
    decreases *xs,
{
    let mut r: Vec<MalType> = Vec::new();
    let mut i: usize = 0;
    while i < xs.len()
        invariant
            i <= xs@.len(),
            r@.len() == i,
            forall|k: int| 0 <= k < i ==> (#[trigger] r@[k])@ == xs@[k]@,
        decreases xs@.len() - i,
    {
        r.push(copy_val(&xs[i]));
        i += 1;
    }
    proof {
        lemma_view_vals(r@);
        lemma_view_vals(xs@);
        assert(view_vals(r@) =~= view_vals(xs@));
    }
    r
}

/// Deep copy of key-value pairs.
fn copy_pairs(ps: &Vec<(MalHashable, MalType)>) -> (r: Vec<(MalHashable, MalType)>)
    ensures
        view_pairs(r@) == view_pairs(ps@),
        r@.len() == ps@.len(),
    decreases *ps,
{
    let mut r: Vec<(MalHashable, MalType)> = Vec::new();
    let mut i: usize = 0;
    while i < ps.len()
        invariant
            i <= ps@.len(),
            r@.len() == i,
            forall|k: int|
                0 <= k < i ==> (#[trigger] r@[k]).0@ == ps@[k].0@ && r@[k].1@ == ps@[k].1@,
        decreases ps@.len() - i,
    {
        let key = copy_key(&ps[i].0);
        let val = copy_val(&ps[i].1);
        r.push((key, val));
        i += 1;
    }
    proof {
        lemma_view_pairs(r@);
        lemma_view_pairs(ps@);
        assert(view_pairs(r@) =~= view_pairs(ps@));
    }
    r
}

/// Deep copy of a key.
fn copy_key(h: &MalHashable) -> (r: MalHashable)
    ensures
        r@ == h@,
{
    match h {
        MalHashable::Nil => MalHashable::Nil,
        MalHashable::Bool(b) => MalHashable::Bool(*b),
        MalHashable::Int(i) => MalHashable::Int(*i),
        MalHashable::Symbol(s) => MalHashable::Symbol(s.clone()),
        MalHashable::KeyWord(s) => MalHashable::KeyWord(s.clone()),
        MalHashable::String(s) => MalHashable::String(s.clone()),
    }
}

/// Deep copy of a list of names.
pub fn copy_strings(xs: &Vec<String>) -> (r: Vec<String>)
    ensures
        view_strings(r@) == view_strings(xs@),
        r@.len() == xs@.len(),
{
    let mut r: Vec<String> = Vec::new();
    let mut i: usize = 0;
    while i < xs.len()
        invariant
            i <= xs@.len(),
            r@.len() == i,
            forall|k: int| 0 <= k < i ==> (#[trigger] r@[k])@ == xs@[k]@,
        decreases xs@.len() - i,
    {
        r.push(xs[i].clone());
        i += 1;
    }
    proof {
        assert(view_strings(r@) =~= view_strings(xs@));
    }
    r
}

impl Clone for MalType {
    /// Cloning preserves the value's view.
    fn clone(&self) -> (r: Self)
        ensures
            r@ == self@,
    {
        copy_val(self)
    }
}

impl Clone for MalHashable {
    /// Cloning preserves the key's view.
    fn clone(&self) -> (r: Self)
        ensures
            r@ == self@,
    {
        copy_key(self)
    }
}

impl Clone for MalFn {
    /// Cloning preserves the closure's view.
    fn clone(&self) -> (r: Self)
        ensures
            r@ == self@,
    {
        let r = MalFn {
            args: copy_strings(&self.args),
            body: Box::new(copy_val(&*self.body)),
            env: self.env,
            is_variadic: self.is_variadic,
        };
        proof {
            assert(r@ =~= self@);
        }
        r
    }
}

} // verus!
