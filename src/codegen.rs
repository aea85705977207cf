use vstd::prelude::*;

use crate::ir::{program, IR, IrModel};
use crate::schema::{has_key, key_index, Ground, Props, SchemaModel};
use crate::searcher::{search, search_props};
use crate::text::{
    decimal, ends_with, first_is, last_is, push_decimal, push_indent, spaces, starts_with,
};

verus! {

/// A translator from IR programs to source text of some target language.
pub trait Codegen: Sized {
    type Output;

    /// Whether this generator can translate the program: the programs it
    /// accepts are those on which it never meets a broken frame.
    spec fn accepts(&self, ir: Seq<IrModel>) -> bool;

    fn generate(self, ir: Vec<IR>) -> (out: Self::Output)
        requires
            self.accepts(program(ir@)),
    ;
}

/// One frame of the generator's location stack.
#[derive(Debug)]
pub enum Level {
    /// An auxiliary variable that holds an array or object under construction.
    Var(String),
    /// A named property of the variable beneath.
    Key(String),
    /// An array variable and the name of its loop index.
    Arr(String, String),
}

/// The mathematical value of a [`Level`].
pub enum LevelModel {
    Var(Seq<char>),
    Key(Seq<char>),
    Arr(Seq<char>, Seq<char>),
}

impl View for Level {
    type V = LevelModel;

    open spec fn view(&self) -> LevelModel {
        match self {
            Level::Var(v) => LevelModel::Var(v@),
            Level::Key(k) => LevelModel::Key(k@),
            Level::Arr(a, i) => LevelModel::Arr(a@, i@),
        }
    }
}

impl Level {
    pub fn key(k: &str) -> (r: Level)
        ensures
            r@ == LevelModel::Key(k@),
    {
        Level::Key(String::from_str(k))
    }

    pub fn var(v: &str) -> (r: Level)
        ensures
            r@ == LevelModel::Var(v@),
    {
        Level::Var(String::from_str(v))
    }

    pub fn arr(a: &str, i: &str) -> (r: Level)
        ensures
            r@ == LevelModel::Arr(a@, i@),
    {
        Level::Arr(String::from_str(a), String::from_str(i))
    }

    /// The name that the frame stands for: the variable, the property or the
    /// array.
    pub fn name(&self) -> (r: String)
        ensures
            r@ == level_name(self@),
    {
        match self {
            Level::Var(v) => v.clone(),
            Level::Key(k) => k.clone(),
            Level::Arr(a, _) => a.clone(),
        }
    }

    fn duplicate(&self) -> (r: Level)
        ensures
            r@ == self@,
    {
        match self {
            Level::Var(v) => Level::Var(v.clone()),
            Level::Key(k) => Level::Key(k.clone()),
            Level::Arr(a, i) => Level::Arr(a.clone(), i.clone()),
        }
    }
}

pub open spec fn level_name(l: LevelModel) -> Seq<char> {
    match l {
        LevelModel::Var(v) => v,
        LevelModel::Key(k) => k,
        LevelModel::Arr(a, _) => a,
    }
}

pub open spec fn stack_model(s: Seq<Level>) -> Seq<LevelModel> {
    s.map_values(|l: Level| l@)
}

/// What one frame adds to the input path.
pub open spec fn segment(l: LevelModel) -> Seq<char> {
    match l {
        LevelModel::Var(_) => Seq::empty(),
        LevelModel::Key(k) => "."@ + k,
        LevelModel::Arr(_, i) => "["@ + i + "]"@,
    }
}

/// The input location that a stack addresses: `arg` followed by `.k` for each
/// property frame and `[i]` for each array frame.
pub open spec fn input_path_of(arg: Seq<char>, stack: Seq<LevelModel>) -> Seq<char>
    decreases stack.len(),
{
    if stack.len() == 0 {
        arg
    } else {
        input_path_of(arg, stack.drop_last()) + segment(stack.last())
    }
}

/// The output location that a stack addresses, from its top frame; `None`
/// where a property frame does not stand on a variable.
pub open spec fn output_path_of(ret: Seq<char>, stack: Seq<LevelModel>) -> Option<Seq<char>> {
    if stack.len() == 0 {
        Some(ret)
    } else {
        match stack.last() {
            LevelModel::Var(v) => Some(v),
            LevelModel::Arr(a, i) => Some(a + "["@ + i + "]"@),
            LevelModel::Key(k) => {
                let below = if stack.len() >= 2 {
                    stack[stack.len() - 2]
                } else {
                    LevelModel::Var(ret)
                };
                match below {
                    LevelModel::Var(v) => Some(v + "."@ + k),
                    _ => None,
                }
            },
        }
    }
}

/// The statement that converts a scalar of kind `from` at `inp` into one of
/// kind `to` at `out`, if the pair has one.
pub open spec fn coercion(out: Seq<char>, inp: Seq<char>, from: Ground, to: Ground) -> Option<
    Seq<char>,
> {
    match (from, to) {
        (Ground::Num, Ground::Bool) => Some(out + " = !("@ + inp + " === 0);"@),
        (Ground::Bool, Ground::Num) => Some(out + " = "@ + inp + " ? 0 : 1;"@),
        (Ground::String, Ground::Num) => Some(out + " = parseInt("@ + inp + ");"@),
        (Ground::String, Ground::Bool) => Some(out + " = !!("@ + inp + ");"@),
        (Ground::Null, Ground::Num) => Some(out + " = 0;"@),
        (Ground::Null, Ground::Bool) => Some(out + " = false;"@),
        (Ground::Null, Ground::String) => Some(out + " = \"null\";"@),
        (_, Ground::String) => Some(out + " = "@ + inp + ".toString();"@),
        (_, Ground::Null) => Some(out + " = null;"@),
        _ => None,
    }
}

/// The state of the generator between two instructions.
pub struct GenState {
    pub stack: Seq<LevelModel>,
    pub uniq: nat,
    pub frags: Seq<Seq<char>>,
}

/// One instruction: the next state, or `None` where the instruction meets a
/// broken frame.
pub open spec fn step(arg: Seq<char>, ret: Seq<char>, st: GenState, op: IrModel) -> Option<
    GenState,
> {
    let inp = input_path_of(arg, st.stack);
    let out = output_path_of(ret, st.stack);
    match op {
        IrModel::G2G(from, to) => match out {
            Some(o) => Some(
                GenState {
                    frags: match coercion(o, inp, from, to) {
                        Some(f) => st.frags.push(f),
                        None => st.frags,
                    },
                    ..st
                },
            ),
            None => None,
        },
        IrModel::Copy => match out {
            Some(o) => Some(
                GenState { frags: st.frags.push(o + " = structuredClone("@ + inp + ");"@), ..st },
            ),
            None => None,
        },
        IrModel::PushArr => {
            let a = "arr"@ + decimal(st.uniq);
            let i = "idx"@ + decimal(st.uniq + 1);
            Some(
                GenState {
                    stack: st.stack.push(LevelModel::Arr(a, i)),
                    uniq: st.uniq + 2,
                    frags: st.frags.push("let "@ + a + " = [];"@).push(
                        "for (let "@ + i + " = 0; "@ + i + " < "@ + inp + ".length; "@ + i
                            + "++) {"@,
                    ),
                },
            )
        },
        IrModel::PopArr => if st.stack.len() > 0 && st.stack.last() is Arr {
            let rest = st.stack.drop_last();
            match output_path_of(ret, rest) {
                Some(o) => Some(
                    GenState {
                        stack: rest,
                        frags: st.frags.push("}"@).push(
                            o + " = "@ + st.stack.last()->Arr_0 + ";"@,
                        ),
                        ..st
                    },
                ),
                None => None,
            }
        } else {
            None
        },
        IrModel::PushKey(k) => Some(GenState { stack: st.stack.push(LevelModel::Key(k)), ..st }),
        IrModel::PopKey => if st.stack.len() == 0 {
            Some(st)
        } else if st.stack.last() is Key {
            Some(GenState { stack: st.stack.drop_last(), ..st })
        } else {
            None
        },
        IrModel::PushObj => {
            let v = "obj"@ + decimal(st.uniq);
            Some(
                GenState {
                    stack: st.stack.push(LevelModel::Var(v)),
                    uniq: st.uniq + 1,
                    frags: st.frags.push("let "@ + v + " = {};"@),
                },
            )
        },
        IrModel::PopObj => {
            let top = if st.stack.len() == 0 {
                LevelModel::Var(ret)
            } else {
                st.stack.last()
            };
            let rest = if st.stack.len() == 0 {
                st.stack
            } else {
                st.stack.drop_last()
            };
            match output_path_of(ret, rest) {
                Some(o) => Some(
                    GenState {
                        stack: rest,
                        frags: st.frags.push(o + " = "@ + level_name(top) + ";"@),
                        ..st
                    },
                ),
                None => None,
            }
        },
        IrModel::Abs(k) => match out {
            Some(o) => Some(
                GenState {
                    frags: st.frags.push(o + " = {\""@ + k + "\": "@ + inp + " };"@),
                    ..st
                },
            ),
            None => None,
        },
        IrModel::Extr(k) => match out {
            Some(o) => Some(GenState { frags: st.frags.push(o + " = "@ + inp + "."@ + k + ";"@), ..st }),
            None => None,
        },
        IrModel::Inv => None,
    }
}

/// A whole program, instruction by instruction.
pub open spec fn run(arg: Seq<char>, ret: Seq<char>, st: GenState, ops: Seq<IrModel>) -> Option<
    GenState,
>
    decreases ops.len(),
{
    if ops.len() == 0 {
        Some(st)
    } else {
        match step(arg, ret, st, ops[0]) {
            Some(next) => run(arg, ret, next, ops.drop_first()),
            None => None,
        }
    }
}

/// The indentation level before fragment `j`: one at the start, one more
/// after each fragment that ends with `{`, one less at each that begins with
/// `}`.
pub open spec fn indent_at(frags: Seq<Seq<char>>, j: nat) -> nat
    decreases j, 0nat,
{
    if j == 0 {
        1
    } else {
        let prev = (j - 1) as nat;
        let cur = line_indent(frags, prev);
        if ends_with(frags[prev as int], '{') {
            cur + 1
        } else {
            cur
        }
    }
}

/// The indentation level that fragment `j` is written at.
pub open spec fn line_indent(frags: Seq<Seq<char>>, j: nat) -> nat
    decreases j, 1nat,
{
    let before = indent_at(frags, j);
    if starts_with(frags[j as int], '}') && before > 0 {
        (before - 1) as nat
    } else {
        before
    }
}

pub open spec fn line(frags: Seq<Seq<char>>, j: nat) -> Seq<char> {
    spaces(4 * line_indent(frags, j)) + frags[j as int]
}

/// Lines joined by newlines.
pub open spec fn join_lines(ls: Seq<Seq<char>>) -> Seq<char>
    decreases ls.len(),
{
    if ls.len() == 0 {
        Seq::empty()
    } else if ls.len() == 1 {
        ls[0]
    } else {
        join_lines(ls.drop_last()) + "\n"@ + ls.last()
    }
}

/// The source text of a function of `arg` whose body is the fragments, one
/// per indented line, and which returns `ret`.
pub open spec fn function_text(arg: Seq<char>, ret: Seq<char>, frags: Seq<Seq<char>>) -> Seq<
    char,
> {
    "function("@ + arg + ") {\n"@ + join_lines(lines(frags, frags.len())) + "\n    return "@ + ret
        + ";\n}"@
}

/// The first `n` fragments as indented lines.
pub open spec fn lines(frags: Seq<Seq<char>>, n: nat) -> Seq<Seq<char>> {
    Seq::new(n, |j: int| line(frags, j as nat))
}

/// The text of each fragment.
pub open spec fn texts(v: Seq<String>) -> Seq<Seq<char>> {
    v.map_values(|s: String| s@)
}

/// Running two programs one after the other.
pub proof fn lemma_run_append(
    arg: Seq<char>,
    ret: Seq<char>,
    st: GenState,
    a: Seq<IrModel>,
    b: Seq<IrModel>,
)
    ensures
        run(arg, ret, st, a + b) == match run(arg, ret, st, a) {
            Some(mid) => run(arg, ret, mid, b),
            None => None,
        },
    decreases a.len(),
{
    if a.len() == 0 {
        assert(a + b =~= b);
    } else {
        assert((a + b)[0] == a[0]);
        assert((a + b).drop_first() =~= a.drop_first() + b);
        match step(arg, ret, st, a[0]) {
            Some(next) => lemma_run_append(arg, ret, next, a.drop_first(), b),
            None => {},
        }
    }
}

/// A program of one instruction is that instruction's step.
pub proof fn lemma_run_one(arg: Seq<char>, ret: Seq<char>, st: GenState, op: IrModel)
    ensures
        run(arg, ret, st, seq![op]) == step(arg, ret, st, op),
{
    assert(seq![op].drop_first() =~= Seq::<IrModel>::empty());
    assert(seq![op][0] == op);
    match step(arg, ret, st, op) {
        Some(n) => {
            assert(run(arg, ret, n, seq![op].drop_first()) == Some(n));
        },
        None => {},
    }
}

/// Whether the program runs without a broken frame and leaves the stack as
/// it found it.
pub open spec fn runs_balanced(arg: Seq<char>, ret: Seq<char>, st: GenState, p: Seq<IrModel>) -> bool {
    &&& run(arg, ret, st, p) is Some
    &&& run(arg, ret, st, p)->0.stack == st.stack
}

/// Every program that the search finds runs on the JavaScript generator from
/// any stack whose output location is defined, and leaves that stack as it
/// was: frames are balanced and every property frame stands on a variable.
pub proof fn lemma_search_runs(
    arg: Seq<char>,
    ret: Seq<char>,
    l: SchemaModel,
    r: SchemaModel,
    st: GenState,
)
    requires
        search(l, r) is Some,
        output_path_of(ret, st.stack) is Some,
    ensures
        runs_balanced(arg, ret, st, search(l, r)->0),
    decreases l, r, 0int,
{
    let p = search(l, r)->0;
    match (l, r) {
        (SchemaModel::Ground(g1), SchemaModel::Ground(g2)) => {
            lemma_run_one(arg, ret, st, p[0]);
            assert(p == seq![p[0]]);
        },
        (SchemaModel::Ground(_), SchemaModel::Obj(m)) => {
            let inner = search(l, m[0].1)->0;
            lemma_search_runs(arg, ret, l, m[0].1, st);
            let mid = run(arg, ret, st, inner)->0;
            lemma_run_append(arg, ret, st, inner, seq![IrModel::Abs(m[0].0)]);
            lemma_run_one(arg, ret, mid, IrModel::Abs(m[0].0));
            assert(p =~= inner + seq![IrModel::Abs(m[0].0)]);
        },
        (SchemaModel::Arr(a), SchemaModel::Arr(b)) => {
            let inner = search(*a, *b)->0;
            let open = seq![IrModel::PushArr];
            let close = seq![IrModel::PopArr];
            lemma_run_one(arg, ret, st, IrModel::PushArr);
            let s1 = step(arg, ret, st, IrModel::PushArr)->0;
            lemma_search_runs(arg, ret, *a, *b, s1);
            let s2 = run(arg, ret, s1, inner)->0;
            lemma_run_one(arg, ret, s2, IrModel::PopArr);
            assert(s1.stack.drop_last() =~= st.stack);
            lemma_run_append(arg, ret, st, open, inner);
            lemma_run_append(arg, ret, st, open + inner, close);
            assert(p =~= open + inner + close);
        },
        (SchemaModel::Obj(m), SchemaModel::Ground(g)) => {
            lemma_run_one(arg, ret, st, p[0]);
            assert(p == seq![p[0]]);
        },
        (SchemaModel::Obj(m1), SchemaModel::Obj(m2)) => {
            let body = search_props(m1, m2, 0)->0;
            let open = seq![IrModel::PushObj];
            let close = seq![IrModel::PopObj];
            lemma_run_one(arg, ret, st, IrModel::PushObj);
            let s1 = step(arg, ret, st, IrModel::PushObj)->0;
            lemma_props_run(arg, ret, m1, m2, 0, s1);
            let s2 = run(arg, ret, s1, body)->0;
            lemma_run_one(arg, ret, s2, IrModel::PopObj);
            assert(s1.stack.drop_last() =~= st.stack);
            lemma_run_append(arg, ret, st, open, body);
            lemma_run_append(arg, ret, st, open + body, close);
            assert(p =~= open + body + close);
        },
        _ => {
            assert(p =~= Seq::<IrModel>::empty());
        },
    }
}

/// The part of an object-to-object program for the properties from `i` on
/// runs balanced on a stack whose top frame is a variable.
pub proof fn lemma_props_run(
    arg: Seq<char>,
    ret: Seq<char>,
    m1: Props,
    m2: Props,
    i: int,
    st: GenState,
)
    requires
        search_props(m1, m2, i) is Some,
        st.stack.len() > 0,
        st.stack.last() is Var,
    ensures
        runs_balanced(arg, ret, st, search_props(m1, m2, i)->0),
    decreases m1, m2, m1.len() - i,
{
    if i < 0 || i >= m1.len() {
    } else if has_key(m2, m1[i].0) {
        let j = key_index(m2, m1[i].0);
        let k = m1[i].0;
        let inner = search(m1[i].1, m2[j].1)->0;
        let rest = search_props(m1, m2, i + 1)->0;
        let open = seq![IrModel::PushKey(k)];
        let close = seq![IrModel::PopKey];
        lemma_run_one(arg, ret, st, IrModel::PushKey(k));
        let s1 = step(arg, ret, st, IrModel::PushKey(k))->0;
        assert(s1.stack[s1.stack.len() - 2] == st.stack.last());
        lemma_search_runs(arg, ret, m1[i].1, m2[j].1, s1);
        let s2 = run(arg, ret, s1, inner)->0;
        lemma_run_one(arg, ret, s2, IrModel::PopKey);
        let s3 = step(arg, ret, s2, IrModel::PopKey)->0;
        assert(s3.stack =~= st.stack);
        lemma_props_run(arg, ret, m1, m2, i + 1, s3);
        lemma_run_append(arg, ret, st, open, inner);
        lemma_run_append(arg, ret, st, open + inner, close);
        lemma_run_append(arg, ret, st, open + inner + close, rest);
        assert(search_props(m1, m2, i)->0 =~= open + inner + close + rest);
    } else {
        lemma_props_run(arg, ret, m1, m2, i + 1, st);
    }
}

/// A fresh JavaScript generator runs every program that the search finds
/// without a broken frame.
pub proof fn lemma_fresh_generator_runs(arg: Seq<char>, ret: Seq<char>, l: SchemaModel, r: SchemaModel)
    requires
        search(l, r) is Some,
    ensures
        run(
            arg,
            ret,
            GenState { stack: Seq::empty(), uniq: 0, frags: Seq::empty() },
            search(l, r)->0,
        ) is Some,
{
    lemma_search_runs(arg, ret, l, r, GenState { stack: Seq::empty(), uniq: 0, frags: Seq::empty() });
}

/// The JavaScript generator: it walks the program with a stack of frames and
/// emits one statement per fragment.
pub struct JSCodegen {
    pub varstack: Vec<Level>,
    pub arg: String,
    pub retvar: String,
    pub uniq: u128,
}

impl JSCodegen {
    pub open spec fn arg_name(&self) -> Seq<char> {
        self.arg@
    }

    pub open spec fn ret_name(&self) -> Seq<char> {
        self.retvar@
    }

    pub open spec fn counter(&self) -> nat {
        self.uniq as nat
    }

    pub open spec fn stack(&self) -> Seq<LevelModel> {
        stack_model(self.varstack@)
    }

    /// The state that generation starts from.
    pub open spec fn start(&self) -> GenState {
        GenState { stack: self.stack(), uniq: self.counter(), frags: Seq::empty() }
    }

    pub fn new(arg: &str, retvar: &str) -> (r: JSCodegen)
        ensures
            r.arg_name() == arg@,
            r.ret_name() == retvar@,
            r.stack() == Seq::<LevelModel>::empty(),
            r.counter() == 0,
    {
        let r = JSCodegen {
            varstack: Vec::new(),
            arg: String::from_str(arg),
            retvar: String::from_str(retvar),
            uniq: 0,
        };
        proof {
            assert(r.stack() =~= Seq::<LevelModel>::empty());
        }
        r
    }

    fn peektop(&self) -> (r: Level)
        ensures
            r@ == (if self.varstack@.len() == 0 {
                LevelModel::Var(self.retvar@)
            } else {
                self.varstack@.last()@
            }),
    {
        let n = self.varstack.len();
        if n == 0 {
            Level::Var(self.retvar.clone())
        } else {
            self.varstack[n - 1].duplicate()
        }
    }

    fn poptop(&mut self) -> (r: Level)
        ensures
            r@ == (if old(self).varstack@.len() == 0 {
                LevelModel::Var(old(self).retvar@)
            } else {
                old(self).varstack@.last()@
            }),
            final(self).varstack@ == (if old(self).varstack@.len() == 0 {
                old(self).varstack@
            } else {
                old(self).varstack@.drop_last()
            }),
            final(self).arg == old(self).arg,
            final(self).retvar == old(self).retvar,
            final(self).uniq == old(self).uniq,
    {
        match self.varstack.pop() {
            Some(l) => l,
            None => Level::Var(self.retvar.clone()),
        }
    }

    fn new_var(&mut self, prefix: &str) -> (r: String)
        requires
            old(self).uniq < u128::MAX,
        ensures
            r@ == prefix@ + decimal(old(self).uniq as nat),
            final(self).uniq == old(self).uniq + 1,
            final(self).varstack == old(self).varstack,
            final(self).arg == old(self).arg,
            final(self).retvar == old(self).retvar,
    {
        let mut varname = String::from_str(prefix);
        push_decimal(&mut varname, self.uniq);
        self.uniq = self.uniq + 1;
        varname
    }

    fn new_obj(&mut self, prefix: &str) -> (r: Level)
        requires
            old(self).uniq < u128::MAX,
        ensures
            r@ == LevelModel::Var(prefix@ + decimal(old(self).uniq as nat)),
            final(self).uniq == old(self).uniq + 1,
            final(self).stack() == old(self).stack().push(r@),
            final(self).arg == old(self).arg,
            final(self).retvar == old(self).retvar,
    {
        let varname = self.new_var(prefix);
        let obj = Level::Var(varname);
        self.varstack.push(obj.duplicate());
        proof {
            assert(self.stack() =~= old(self).stack().push(obj@));
        }
        obj
    }

    /// The statement that converts the scalar at the current location, if
    /// the pair of kinds has one.
    pub fn generate_ground_to_ground(&self, from: Ground, to: Ground) -> (r: Option<String>)
        requires
            output_path_of(self.ret_name(), self.stack()) is Some,
        ensures
            match r {
                Some(t) => coercion(
                    output_path_of(self.ret_name(), self.stack())->0,
                    input_path_of(self.arg_name(), self.stack()),
                    from,
                    to,
                ) == Some(t@),
                None => coercion(
                    output_path_of(self.ret_name(), self.stack())->0,
                    input_path_of(self.arg_name(), self.stack()),
                    from,
                    to,
                ) is None,
            },
    {
        let mut out = self.output_path();
        let inp = self.input_path();
        match (from, to) {
            (Ground::Num, Ground::Bool) => {
                out.append(" = !(");
                out.append(inp.as_str());
                out.append(" === 0);");
            },
            (Ground::Bool, Ground::Num) => {
                out.append(" = ");
                out.append(inp.as_str());
                out.append(" ? 0 : 1;");
            },
            (Ground::String, Ground::Num) => {
                out.append(" = parseInt(");
                out.append(inp.as_str());
                out.append(");");
            },
            (Ground::String, Ground::Bool) => {
                out.append(" = !!(");
                out.append(inp.as_str());
                out.append(");");
            },
            (Ground::Null, Ground::Num) => {
                out.append(" = 0;");
            },
            (Ground::Null, Ground::Bool) => {
                out.append(" = false;");
            },
            (Ground::Null, Ground::String) => {
                out.append(" = \"null\";");
            },
            (_, Ground::String) => {
                out.append(" = ");
                out.append(inp.as_str());
                out.append(".toString();");
            },
            (_, Ground::Null) => {
                out.append(" = null;");
            },
            _ => {
                return None;
            },
        }
        Some(out)
    }

    /// The location that the current instruction writes to.
    pub fn output_path(&self) -> (r: String)
        requires
            output_path_of(self.ret_name(), self.stack()) is Some,
        ensures
            r@ == output_path_of(self.ret_name(), self.stack())->0,
    {
        let top = self.peektop();
        let n = self.varstack.len();
        match top {
            Level::Key(k) => {
                let mut r = if n >= 2 {
                    match &self.varstack[n - 2] {
                        Level::Var(v) => v.clone(),
                        _ => String::new(),
                    }
                } else {
                    self.retvar.clone()
                };
                r.append(".");
                r.append(k.as_str());
                r
            },
            Level::Arr(a, i) => {
                let mut r = a;
                r.append("[");
                r.append(i.as_str());
                r.append("]");
                r
            },
            Level::Var(v) => v,
        }
    }

    /// The location that the current instruction reads from.
    pub fn input_path(&self) -> (r: String)
        ensures
            r@ == input_path_of(self.arg_name(), self.stack()),
    {
        let mut buf = self.arg.clone();
        let mut j: usize = 0;
        while j < self.varstack.len()
            invariant
                j <= self.varstack@.len(),
                buf@ == input_path_of(self.arg_name(), stack_model(self.varstack@.take(j as int))),
            decreases self.varstack@.len() - j,
        {
            proof {
                let s = stack_model(self.varstack@.take(j as int + 1));
                assert(s.drop_last() =~= stack_model(self.varstack@.take(j as int)));
            }
            match &self.varstack[j] {
                Level::Var(_) => {},
                Level::Key(k) => {
                    buf.append(".");
                    buf.append(k.as_str());
                },
                Level::Arr(_, i) => {
                    buf.append("[");
                    buf.append(i.as_str());
                    buf.append("]");
                },
            }
            j = j + 1;
        }
        proof {
            assert(self.varstack@.take(j as int) =~= self.varstack@);
        }
        buf
    }
}

impl Codegen for JSCodegen {
    type Output = String;

    /// The programs on which no instruction meets a broken frame, and whose
    /// fresh names fit the counter.
    open spec fn accepts(&self, ir: Seq<IrModel>) -> bool {
        &&& self.uniq + 2 * ir.len() <= u128::MAX
        &&& run(self.arg@, self.retvar@, self.start(), ir) is Some
    }

    fn generate(self, ir: Vec<IR>) -> (out: String)
        ensures
            out@ == function_text(
                self.arg@,
                self.retvar@,
                run(self.arg@, self.retvar@, self.start(), program(ir@))->0.frags,
            ),
    {
        let mut cg = self;
        let ghost ops = program(ir@);
        let ghost a = cg.arg@;
        let ghost r = cg.retvar@;
        let ghost fin = run(a, r, cg.start(), ops)->0;
        let mut frags: Vec<String> = Vec::new();
        let mut i: usize = 0;
        proof {
            assert(ops.subrange(0, ops.len() as int) =~= ops);
            assert(texts(frags@) =~= Seq::<Seq<char>>::empty());
        }
        while i < ir.len()
            invariant
                ops == program(ir@),
                cg.arg@ == a,
                cg.retvar@ == r,
                i <= ir@.len(),
                cg.uniq + 2 * (ir@.len() - i) <= u128::MAX,
                run(
                    a,
                    r,
                    GenState { stack: cg.stack(), uniq: cg.uniq as nat, frags: texts(frags@) },
                    ops.subrange(i as int, ops.len() as int),
                ) == Some(fin),
            decreases ir@.len() - i,
        {
            let ghost cur = GenState {
                stack: cg.stack(),
                uniq: cg.uniq as nat,
                frags: texts(frags@),
            };
            let ghost rest = ops.subrange(i as int, ops.len() as int);
            let ghost next = step(a, r, cur, ops[i as int])->0;
            proof {
                assert(rest[0] == ops[i as int]);
                assert(rest.drop_first() =~= ops.subrange(i + 1, ops.len() as int));
                assert(ops[i as int] == ir@[i as int]@);
            }
            match &ir[i] {
                IR::G2G(from, to) => {
                    if let Some(frag) = cg.generate_ground_to_ground(*from, *to) {
                        frags.push(frag);
                    }
                },
                IR::PushArr => {
                    let inp = cg.input_path();
                    let arrname = cg.new_var("arr");
                    let idx = cg.new_var("idx");
                    let mut f1 = String::from_str("let ");
                    f1.append(arrname.as_str());
                    f1.append(" = [];");
                    let mut f2 = String::from_str("for (let ");
                    f2.append(idx.as_str());
                    f2.append(" = 0; ");
                    f2.append(idx.as_str());
                    f2.append(" < ");
                    f2.append(inp.as_str());
                    f2.append(".length; ");
                    f2.append(idx.as_str());
                    f2.append("++) {");
                    frags.push(f1);
                    frags.push(f2);
                    cg.varstack.push(Level::Arr(arrname, idx));
                },
                IR::PopArr => {
                    let popvar = cg.poptop();
                    match popvar {
                        Level::Arr(var, _) => {
                            frags.push(String::from_str("}"));
                            let mut f = cg.output_path();
                            f.append(" = ");
                            f.append(var.as_str());
                            f.append(";");
                            frags.push(f);
                        },
                        _ => {
                            proof {
                                assert(false);
                            }
                        },
                    }
                },
                IR::PushKey(k) => {
                    cg.varstack.push(Level::Key(k.clone()));
                },
                IR::PopKey => {
                    if cg.varstack.len() > 0 {
                        cg.varstack.pop();
                    }
                },
                IR::PushObj => {
                    let var = cg.new_obj("obj");
                    let mut f = String::from_str("let ");
                    f.append(var.name().as_str());
                    f.append(" = {};");
                    frags.push(f);
                },
                IR::PopObj => {
                    let top = cg.poptop();
                    let mut f = cg.output_path();
                    f.append(" = ");
                    f.append(top.name().as_str());
                    f.append(";");
                    frags.push(f);
                },
                IR::Abs(k) => {
                    let mut f = cg.output_path();
                    let inp = cg.input_path();
                    f.append(" = {\"");
                    f.append(k.as_str());
                    f.append("\": ");
                    f.append(inp.as_str());
                    f.append(" };");
                    frags.push(f);
                },
                IR::Copy => {
                    let mut f = cg.output_path();
                    let inp = cg.input_path();
                    f.append(" = structuredClone(");
                    f.append(inp.as_str());
                    f.append(");");
                    frags.push(f);
                },
                IR::Extr(k) => {
                    let mut f = cg.output_path();
                    let inp = cg.input_path();
                    f.append(" = ");
                    f.append(inp.as_str());
                    f.append(".");
                    f.append(k.as_str());
                    f.append(";");
                    frags.push(f);
                },
                IR::Inv => {
                    proof {
                        assert(false);
                    }
                },
            }
            proof {
                assert(cg.stack() =~= next.stack);
                assert(texts(frags@) =~= next.frags);
            }
            i = i + 1;
        }
        let ghost fm = texts(frags@);
        proof {
            assert(ops.subrange(i as int, ops.len() as int) =~= Seq::<IrModel>::empty());
            assert(fm == fin.frags);
            assert(lines(fm, 0) =~= Seq::<Seq<char>>::empty());
        }
        let mut code = String::new();
        let mut indent: u128 = 1;
        let mut j: usize = 0;
        while j < frags.len()
            invariant
                fm == texts(frags@),
                j <= frags@.len(),
                indent == indent_at(fm, j as nat),
                indent <= j + 1,
                code@ == join_lines(lines(fm, j as nat)),
            decreases frags@.len() - j,
        {
            let f = &frags[j];
            if first_is(f, '}') && indent > 0 {
                indent = indent - 1;
            }
            let ghost before = code@;
            if j > 0 {
                code.append("\n");
            }
            push_indent(&mut code, indent);
            code.append(f.as_str());
            proof {
                assert(fm[j as int] == f@);
                assert(indent == line_indent(fm, j as nat));
                let ls = lines(fm, j as nat + 1);
                assert(ls.drop_last() =~= lines(fm, j as nat));
                assert(ls.last() == line(fm, j as nat));
                if j == 0 {
                    assert(code@ =~= join_lines(ls));
                } else {
                    assert(code@ =~= join_lines(ls));
                }
            }
            if last_is(f, '{') {
                indent = indent + 1;
            }
            j = j + 1;
        }
        let mut out = String::from_str("function(");
        out.append(cg.arg.as_str());
        out.append(") {\n");
        out.append(code.as_str());
        out.append("\n    return ");
        out.append(cg.retvar.as_str());
        out.append(";\n}");
        out
    }
}

} // verus!
