//! The program graph consumed by scope analysis: functions, blocks,
//! invocations and their extensions, with text rendering in place of
//! formatter-based display.

use vstd::prelude::*;

verus! {

broadcast use vstd::std_specs::vec::axiom_vec_index_decreases, vstd::std_specs::vec::axiom_vec_decreases_to_view;

/// A whole program: its blocks and its functions.
#[derive(Debug)]
pub struct Program {
    pub blocks: Vec<Block>,
    pub funcs: Vec<Function>,
}

/// One function: name, arguments, result types and entry block.
#[derive(Debug)]
pub struct Function {
    pub name: String,
    pub args: Vec<TypedVar>,
    pub res_types: Vec<Type>,
    pub entry: BlockId,
}

/// A named variable with its type.
#[derive(Debug)]
pub struct TypedVar {
    pub name: String,
    pub ty: Type,
}

/// A type: a name applied to template arguments.
#[derive(Debug)]
pub struct Type {
    pub name: String,
    pub args: Vec<TemplateArg>,
}

/// One template argument: a type or a value.
#[derive(Debug)]
pub enum TemplateArg {
    Type(Type),
    Value(i64),
}

/// A block: its invocations and how it exits.
#[derive(Debug)]
pub struct Block {
    pub invocations: Vec<Invocation>,
    pub exit: BlockExit,
}

/// One invocation of an extension on named arguments and results.
#[derive(Debug)]
pub struct Invocation {
    pub ext: Extension,
    pub args: Vec<String>,
    pub results: Vec<String>,
}

/// How a block's flow ends.
#[derive(Debug)]
pub enum BlockExit {
    Return(Vec<String>),
    Jump(JumpInfo),
    Continue,
}

/// A jump: the extension deciding it and the possible branches.
#[derive(Debug)]
pub struct JumpInfo {
    pub ext: Extension,
    pub args: Vec<String>,
    pub branches: Vec<BranchInfo>,
}

/// An extension: a name applied to template arguments.
#[derive(Debug)]
pub struct Extension {
    pub name: String,
    pub tmpl_args: Vec<TemplateArg>,
}

/// One branch of a jump: the target block and the values exported to it.
#[derive(Debug)]
pub struct BranchInfo {
    pub block: BlockId,
    pub exports: Vec<String>,
}

/// Identifier of a block of the program graph.
#[derive(Clone, Copy, Debug, Eq, Hash, PartialEq, Structural)]
pub struct BlockId(pub usize);

/// The decimal digit character of `d`.
pub open spec fn digit_char(d: nat) -> char {
    if d == 0 {
        '0'
    } else if d == 1 {
        '1'
    } else if d == 2 {
        '2'
    } else if d == 3 {
        '3'
    } else if d == 4 {
        '4'
    } else if d == 5 {
        '5'
    } else if d == 6 {
        '6'
    } else if d == 7 {
        '7'
    } else if d == 8 {
        '8'
    } else {
        '9'
    }
}

/// The decimal digits of `n`, most significant first.
pub open spec fn dec_digits(n: nat) -> Seq<char>
    decreases n,
{
    if n < 10 {
        seq![digit_char(n)]
    } else {
        dec_digits(n / 10).push(digit_char(n % 10))
    }
}

/// The decimal rendering of `v`, with a leading minus sign if negative.
pub open spec fn int_text(v: int) -> Seq<char> {
    if v < 0 {
        seq!['-'] + dec_digits((-v) as nat)
    } else {
        dec_digits(v as nat)
    }
}

/// The one-character string of a decimal digit.
fn digit_str(d: u64) -> (r: &'static str)
    requires
        d < 10,
    ensures
        r@ =~= seq![digit_char(d as nat)],
{
    proof {
        reveal_strlit("0");
        reveal_strlit("1");
        reveal_strlit("2");
        reveal_strlit("3");
        reveal_strlit("4");
        reveal_strlit("5");
        reveal_strlit("6");
        reveal_strlit("7");
        reveal_strlit("8");
        reveal_strlit("9");
    }
    match d {
        0 => "0",
        1 => "1",
        2 => "2",
        3 => "3",
        4 => "4",
        5 => "5",
        6 => "6",
        7 => "7",
        8 => "8",
        _ => "9",
    }
}

/// Renders an unsigned value in decimal.
fn u64_text(n: u64) -> (s: String)
    ensures
        s@ == dec_digits(n as nat),
    decreases n,
{
    if n < 10 {
        String::from_str(digit_str(n))
    } else {
        let mut s = u64_text(n / 10);
        s.append(digit_str(n % 10));
        proof {
            assert(s@ =~= dec_digits((n / 10) as nat).push(digit_char((n % 10) as nat)));
        }
        s
    }
}

/// Renders a signed value in decimal.
pub fn val_to_text(v: i64) -> (s: String)
    ensures
        s@ == int_text(v as int),
{
    if v >= 0 {
        u64_text(v as u64)
    } else {
        let mag: u64 = (-(v as i128)) as u64;
        let mut s = String::from_str("-");
        let digits = u64_text(mag);
        s.append(digits.as_str());
        proof {
            reveal_strlit("-");
            assert("-"@ =~= seq!['-']);
        }
        s
    }
}

/// The rendering of a type: its name, then its template arguments in
/// angle brackets when there are any.
pub open spec fn type_text(t: Type) -> Seq<char>
    decreases t, 0int,
{
    t.name@ + tmpl_args_text(t.args@)
}

/// The rendering of an extension, in the same shape as a type.
pub open spec fn ext_text(e: Extension) -> Seq<char> {
    e.name@ + tmpl_args_text(e.tmpl_args@)
}

/// Angle-bracketed template arguments; nothing when there are none.
pub open spec fn tmpl_args_text(args: Seq<TemplateArg>) -> Seq<char>
    decreases args, 1int,
{
    if args.len() == 0 {
        Seq::empty()
    } else {
        "<"@ + tmpl_args_join(args) + ">"@
    }
}

/// The template arguments' renderings, separated by commas.
pub open spec fn tmpl_args_join(args: Seq<TemplateArg>) -> Seq<char>
    decreases args, 0int,
{
    if args.len() == 0 {
        Seq::empty()
    } else if args.len() == 1 {
        tmpl_arg_text(args[0])
    } else {
        tmpl_args_join(args.drop_last()) + ", "@ + tmpl_arg_text(args.last())
    }
}

/// The rendering of one template argument.
pub open spec fn tmpl_arg_text(a: TemplateArg) -> Seq<char>
    decreases a, 1int,
{
    match a {
        TemplateArg::Type(t) => type_text(t),
        TemplateArg::Value(v) => int_text(v as int),
    }
}

/// A comma-separated join of rendered items.
pub open spec fn comma_join(items: Seq<Seq<char>>) -> Seq<char>
    decreases items.len(),
{
    if items.len() == 0 {
        Seq::empty()
    } else if items.len() == 1 {
        items[0]
    } else {
        comma_join(items.drop_last()) + ", "@ + items.last()
    }
}

/// The views of a vector of strings.
pub open spec fn string_views(items: Seq<String>) -> Seq<Seq<char>> {
    items.map_values(|s: String| s@)
}

/// The rendering of an invocation: the extension applied to the arguments,
/// yielding the results.
pub open spec fn invocation_text(inv: Invocation) -> Seq<char> {
    ext_text(inv.ext) + "("@ + comma_join(string_views(inv.args@)) + ") -> ("@ + comma_join(
        string_views(inv.results@),
    ) + ")"@
}

/// The rendering of a branch: the target block and the exported values,
/// ending in a line break.
pub open spec fn branch_text(b: BranchInfo) -> Seq<char> {
    dec_digits(b.block.0 as nat) + "("@ + comma_join(string_views(b.exports@)) + ")\n"@
}

/// The branches' renderings, one line each.
pub open spec fn branches_text(bs: Seq<BranchInfo>) -> Seq<char>
    decreases bs.len(),
{
    if bs.len() == 0 {
        Seq::empty()
    } else {
        branches_text(bs.drop_last()) + branch_text(bs.last()) + ",\n"@
    }
}

/// The rendering of a jump: the extension and its arguments, then one line
/// per branch inside braces.
pub open spec fn jump_text(j: JumpInfo) -> Seq<char> {
    ext_text(j.ext) + "("@ + comma_join(string_views(j.args@)) + ") {\n"@ + branches_text(
        j.branches@,
    ) + "}"@
}

/// Appends the comma-separated renderings of the items.
fn append_comma_joined(s: &mut String, items: &Vec<String>)
    ensures
        final(s)@ == old(s)@ + comma_join(string_views(items@)),
{
    let ghost base = s@;
    let mut i: usize = 0;
    while i < items.len()
        invariant
            i <= items@.len(),
            i == 0 ==> s@ == base,
            i > 0 ==> s@ == base + comma_join(string_views(items@.take(i as int))),
        decreases items@.len() - i,
    {
        if i > 0 {
            s.append(", ");
        }
        s.append(items[i].as_str());
        proof {
            let views = string_views(items@);
            let now = string_views(items@.take(i + 1));
            assert(now =~= string_views(items@).take(i + 1));
            assert(now.drop_last() =~= string_views(items@).take(i as int));
            assert(now.last() == items@[i as int]@);
            if i == 0 {
                assert(comma_join(now) == items@[0]@);
                assert(s@ =~= base + comma_join(now));
            } else {
                assert(string_views(items@.take(i as int)) =~= now.drop_last());
                assert(comma_join(now) == comma_join(now.drop_last()) + ", "@ + now.last());
                assert(s@ =~= base + comma_join(now));
            }
        }
        i = i + 1;
    }
    proof {
        if items@.len() == 0 {
            assert(comma_join(string_views(items@)) =~= Seq::<char>::empty());
            assert(s@ =~= base + comma_join(string_views(items@)));
        } else {
            assert(items@.take(items@.len() as int) =~= items@);
        }
    }
}

impl Type {
    /// Renders the type: its name, then its template arguments in angle
    /// brackets when there are any.
    pub fn to_text(&self) -> (r: String)
        ensures
            r@ == type_text(*self),
        decreases *self,
    {
        let mut s = String::from_str(self.name.as_str());
        append_tmpl_args(&mut s, &self.args);
        proof {
            assert(s@ =~= type_text(*self));
        }
        s
    }
}

/// Appends the angle-bracketed template arguments, nothing for none.
fn append_tmpl_args(s: &mut String, args: &Vec<TemplateArg>)
    ensures
        final(s)@ == old(s)@ + tmpl_args_text(args@),
    decreases *args,
{
    let ghost base = s@;
    let mut i: usize = 0;
    while i < args.len()
        invariant
            i <= args@.len(),
            i == 0 ==> s@ == base,
            i > 0 ==> s@ == base + "<"@ + tmpl_args_join(args@.take(i as int)),
        decreases args@.len() - i,
    {
        if i == 0 {
            s.append("<");
        } else {
            s.append(", ");
        }
        let part = args[i].to_text();
        s.append(part.as_str());
        proof {
            let now = args@.take(i + 1);
            assert(now.last() == args@[i as int]);
            assert(now.drop_last() =~= args@.take(i as int));
            if i == 0 {
                assert(tmpl_args_join(now) == tmpl_arg_text(args@[0]));
                assert(s@ =~= base + "<"@ + tmpl_args_join(now));
            } else {
                assert(tmpl_args_join(now) == tmpl_args_join(now.drop_last()) + ", "@
                    + tmpl_arg_text(now.last()));
                assert(s@ =~= base + "<"@ + tmpl_args_join(now));
            }
        }
        i = i + 1;
    }
    if args.len() > 0 {
        s.append(">");
        proof {
            assert(args@.take(args@.len() as int) =~= args@);
            assert(s@ =~= base + tmpl_args_text(args@));
        }
    } else {
        proof {
            assert(tmpl_args_text(args@) =~= Seq::<char>::empty());
            assert(s@ =~= base + tmpl_args_text(args@));
        }
    }
}

impl TemplateArg {
    /// Renders the argument: the type's text, or the value in decimal.
    pub fn to_text(&self) -> (r: String)
        ensures
            r@ == tmpl_arg_text(*self),
        decreases *self,
    {
        match self {
            TemplateArg::Type(t) => t.to_text(),
            TemplateArg::Value(v) => val_to_text(*v),
        }
    }
}

impl Extension {
    /// Renders the extension: its name, then its template arguments in
    /// angle brackets when there are any.
    pub fn to_text(&self) -> (r: String)
        ensures
            r@ == ext_text(*self),
        decreases *self,
    {
        let mut s = String::from_str(self.name.as_str());
        append_tmpl_args(&mut s, &self.tmpl_args);
        proof {
            assert(s@ =~= ext_text(*self));
        }
        s
    }
}

impl BranchInfo {
    /// Renders the branch: the target block and the exported values, with
    /// a line break after the closing parenthesis.
    pub fn to_text(&self) -> (r: String)
        ensures
            r@ == branch_text(*self),
    {
        let mut s = u64_text(self.block.0 as u64);
        s.append("(");
        append_comma_joined(&mut s, &self.exports);
        s.append(")\n");
        proof {
            assert(s@ =~= branch_text(*self));
        }
        s
    }
}

impl JumpInfo {
    /// Renders the jump: the extension and its arguments, then one line
    /// per branch inside braces.
    pub fn to_text(&self) -> (r: String)
        ensures
            r@ == jump_text(*self),
    {
        let mut s = self.ext.to_text();
        s.append("(");
        append_comma_joined(&mut s, &self.args);
        s.append(") {\n");
        let ghost head = s@;
        let mut j: usize = 0;
        while j < self.branches.len()
            invariant
                j <= self.branches@.len(),
                s@ == head + branches_text(self.branches@.take(j as int)),
            decreases self.branches@.len() - j,
        {
            let b = self.branches[j].to_text();
            s.append(b.as_str());
            s.append(",\n");
            proof {
                let now = self.branches@.take(j + 1);
                assert(now.last() == self.branches@[j as int]);
                assert(now.drop_last() =~= self.branches@.take(j as int));
                assert(branches_text(now) == branches_text(now.drop_last()) + branch_text(
                    now.last(),
                ) + ",\n"@);
                assert(s@ =~= head + branches_text(now));
            }
            j = j + 1;
        }
        s.append("}");
        proof {
            assert(self.branches@.take(self.branches@.len() as int) =~= self.branches@);
            assert(branches_text(self.branches@.take(0)) =~= Seq::<char>::empty());
            assert(s@ =~= jump_text(*self));
        }
        s
    }
}

impl Invocation {
    /// Renders the invocation: the extension, the arguments and the
    /// results, as a call.
    pub fn to_text(&self) -> (r: String)
        ensures
            r@ == invocation_text(*self),
    {
        let mut s = self.ext.to_text();
        s.append("(");
        append_comma_joined(&mut s, &self.args);
        s.append(") -> (");
        append_comma_joined(&mut s, &self.results);
        s.append(")");
        proof {
            assert(s@ =~= invocation_text(*self));
        }
        s
    }
}

} // verus!
