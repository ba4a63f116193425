//! The typed values a statement is written from, and the text of each.

use vstd::prelude::*;
use vstd::string::*;
use crate::decimal::{int_text, nat_text, push_int, push_nat};
use crate::escape::{escaped, push_escaped};

verus! {

/// An argument of a function call.
pub enum CArg<'a> {
    /// A string literal, given by the text it stands for.
    String(&'a str),
    /// An identifier, written as it is.
    Ident(&'a str),
    /// A 32-bit integer.
    Int32(i32),
    /// A 64-bit integer.
    Int64(i64),
    /// A single-precision number, given by its decimal numeral.
    Float(&'a str),
    /// A double-precision number, given by its decimal numeral.
    Double(&'a str),
    /// A boolean.
    Bool(bool),
    /// A character literal.
    Char(char),
}

/// The type of a variable that is initialized from an identifier.
pub enum VarTypes {
    /// A string.
    String,
    /// A 32-bit integer.
    Int32,
    /// A 64-bit integer.
    Int64,
    /// A single-precision number.
    Float,
    /// A double-precision number.
    Double,
    /// A boolean.
    Bool,
    /// A character.
    Char,
}

/// What a new variable is declared with. The variant fixes the
/// variable's type.
pub enum VarInit<'a> {
    /// A string, initialized with a literal.
    String(&'a str),
    /// A variable of the given type, initialized with an identifier.
    Ident(VarTypes, &'a str),
    /// A 32-bit integer.
    Int32(i32),
    /// A 64-bit integer.
    Int64(i64),
    /// A single-precision number, given by its decimal numeral.
    Float(&'a str),
    /// A double-precision number, given by its decimal numeral.
    Double(&'a str),
    /// A boolean.
    Bool(bool),
    /// A character.
    Char(char),
    /// A string buffer of the given size, left uninitialized.
    SizeString(usize),
}

/// The string literal that stands for `s`: its escaped form between
/// double quotes.
pub open spec fn quoted(s: Seq<char>) -> Seq<char> {
    seq!['"'] + escaped(s) + seq!['"']
}

/// The character literal for `c`: the character between single quotes.
pub open spec fn char_text(c: char) -> Seq<char> {
    seq!['\'', c, '\'']
}

/// The word for a boolean.
pub open spec fn bool_text(b: bool) -> Seq<char> {
    if b {
        "true"@
    } else {
        "false"@
    }
}

impl<'a> CArg<'a> {
    /// The text of the argument.
    pub open spec fn text(self) -> Seq<char> {
        match self {
            CArg::String(s) => quoted(s@),
            CArg::Ident(id) => id@,
            CArg::Int32(n) => int_text(n as int),
            CArg::Int64(n) => int_text(n as int),
            CArg::Float(numeral) => numeral@,
            CArg::Double(numeral) => numeral@,
            CArg::Bool(b) => bool_text(b),
            CArg::Char(c) => char_text(c),
        }
    }
}

/// The texts of `args`, in order, with one comma between each two
/// neighbours and none at either end.
pub open spec fn joined<'a>(args: Seq<CArg<'a>>) -> Seq<char>
    decreases args.len(),
{
    if args.len() == 0 {
        Seq::empty()
    } else if args.len() == 1 {
        args[0].text()
    } else {
        joined(args.drop_last()) + seq![','] + args.last().text()
    }
}

/// The statement that calls `name` with `args`.
pub open spec fn call_text<'a>(name: Seq<char>, args: Seq<CArg<'a>>) -> Seq<char> {
    name + "("@ + joined(args) + ");\n"@
}

/// The statement that calls `name` without arguments.
pub open spec fn plain_call_text(name: Seq<char>) -> Seq<char> {
    name + "();\n"@
}

/// A call with no arguments at all is the call without arguments.
pub proof fn lemma_call_without_args(name: Seq<char>)
    ensures
        call_text(name, Seq::empty()) == plain_call_text(name),
{
    reveal_strlit("(");
    reveal_strlit(");\n");
    reveal_strlit("();\n");
    assert(joined(Seq::<CArg>::empty()) =~= Seq::<char>::empty());
    assert(call_text(name, Seq::empty()) =~= plain_call_text(name));
}

/// A further argument comes after a comma.
pub proof fn lemma_joined_push<'a>(args: Seq<CArg<'a>>, arg: CArg<'a>)
    requires
        args.len() > 0,
    ensures
        joined(args.push(arg)) == joined(args) + seq![','] + arg.text(),
{
    assert(args.push(arg).drop_last() =~= args);
}

/// A call with two string arguments has the two literals between the
/// parentheses with one comma between them, and no comma after the
/// second.
pub proof fn lemma_call_with_two_strings(name: Seq<char>, first: &str, second: &str)
    ensures
        call_text(name, seq![CArg::String(first), CArg::String(second)]) == name + "("@ + quoted(
            first@,
        ) + seq![','] + quoted(second@) + ");\n"@,
{
    let one = seq![CArg::String(first)];
    let two = seq![CArg::String(first), CArg::String(second)];
    assert(two.drop_last() =~= one);
    assert(joined(one) == quoted(first@));
    assert(joined(two) == quoted(first@) + seq![','] + quoted(second@));
    assert(call_text(name, two) =~= name + "("@ + quoted(first@) + seq![','] + quoted(second@)
        + ");\n"@);
}

impl VarTypes {
    /// The type's keyword in a declaration, with the space after it.
    pub open spec fn keyword(self) -> Seq<char> {
        match self {
            VarTypes::String => "char "@,
            VarTypes::Int32 => "int "@,
            VarTypes::Int64 => "int "@,
            VarTypes::Float => "float "@,
            VarTypes::Double => "double "@,
            VarTypes::Bool => "bool "@,
            VarTypes::Char => "char "@,
        }
    }

    /// What follows the variable's name: the brackets of an array for a
    /// string, nothing for the other types.
    pub open spec fn brackets(self) -> Seq<char> {
        match self {
            VarTypes::String => "[]"@,
            _ => Seq::empty(),
        }
    }
}

impl<'a> VarInit<'a> {
    /// The statement that declares the variable `name`.
    pub open spec fn declaration(self, name: Seq<char>) -> Seq<char> {
        match self {
            VarInit::String(s) => "char "@ + name + "[]="@ + quoted(s@) + ";\n"@,
            VarInit::Ident(ty, id) => ty.keyword() + name + ty.brackets() + "="@ + id@ + ";\n"@,
            VarInit::Int32(n) => "int "@ + name + "="@ + int_text(n as int) + ";\n"@,
            VarInit::Int64(n) => "int "@ + name + "="@ + int_text(n as int) + ";\n"@,
            VarInit::Float(numeral) => "float "@ + name + "="@ + numeral@ + ";\n"@,
            VarInit::Double(numeral) => "double "@ + name + "="@ + numeral@ + ";\n"@,
            VarInit::Bool(b) => "bool "@ + name + "="@ + bool_text(b) + ";\n"@,
            VarInit::Char(c) => "char "@ + name + "="@ + char_text(c) + ";\n"@,
            VarInit::SizeString(size) => "char "@ + name + "["@ + nat_text(size as nat) + "];\n"@,
        }
    }

    /// Whether the declaration uses the type `bool`, which a program has
    /// only with the header `stdbool.h`.
    pub open spec fn needs_stdbool(self) -> bool {
        match self {
            VarInit::Bool(_) => true,
            VarInit::Ident(VarTypes::Bool, _) => true,
            _ => false,
        }
    }
}

/// Whether `text` ends with a line feed.
pub open spec fn ends_line(text: Seq<char>) -> bool {
    text.len() > 0 && text.last() == '\n'
}

/// Every statement ends with a line feed.
pub proof fn lemma_statements_end_lines<'a>(
    name: Seq<char>,
    args: Seq<CArg<'a>>,
    value: VarInit<'a>,
)
    ensures
        ends_line(plain_call_text(name)),
        ends_line(call_text(name, args)),
        ends_line(value.declaration(name)),
{
    reveal_strlit("();\n");
    reveal_strlit(");\n");
    reveal_strlit(";\n");
    reveal_strlit("];\n");
}

/// Appends the string literal that stands for `s`.
pub fn push_quoted(out: &mut String, s: &str)
    ensures
        final(out)@ == old(out)@ + quoted(s@),
{
    out.push('"');
    push_escaped(out, s);
    out.push('"');
}

/// Appends the character literal for `c`.
pub fn push_char_text(out: &mut String, c: char)
    ensures
        final(out)@ == old(out)@ + char_text(c),
{
    out.push('\'');
    out.push(c);
    out.push('\'');
}

/// Appends the word for `b`.
pub fn push_bool(out: &mut String, b: bool)
    ensures
        final(out)@ == old(out)@ + bool_text(b),
{
    if b {
        out.append("true");
    } else {
        out.append("false");
    }
}

/// Appends the text of `arg`.
pub fn push_arg(out: &mut String, arg: &CArg)
    ensures
        final(out)@ == old(out)@ + arg.text(),
{
    match arg {
        CArg::String(s) => push_quoted(out, s),
        CArg::Ident(id) => out.append(id),
        CArg::Int32(n) => push_int(out, *n as i64),
        CArg::Int64(n) => push_int(out, *n),
        CArg::Float(numeral) => out.append(numeral),
        CArg::Double(numeral) => out.append(numeral),
        CArg::Bool(b) => push_bool(out, *b),
        CArg::Char(c) => push_char_text(out, *c),
    }
}

/// Appends the statement that calls `name` with `args`.
pub fn push_call(out: &mut String, name: &str, args: &Vec<CArg>)
    ensures
        final(out)@ == old(out)@ + call_text(name@, args@),
{
    out.append(name);
    out.append("(");
    let ghost start = out@;
    let mut i: usize = 0;
    while i < args.len()
        invariant
            i <= args.len(),
            out@ == start + joined(args@.take(i as int)),
        decreases args.len() - i,
    {
        if i > 0 {
            out.push(',');
        }
        push_arg(out, &args[i]);
        proof {
            let upto = args@.take(i + 1);
            assert(upto.drop_last() =~= args@.take(i as int));
            assert(upto.last() == args@[i as int]);
        }
        i += 1;
    }
    proof {
        assert(args@.take(args.len() as int) =~= args@);
    }
    out.append(");\n");
}

/// Appends the keyword of `ty`, with the space after it.
pub fn push_keyword(out: &mut String, ty: &VarTypes)
    ensures
        final(out)@ == old(out)@ + ty.keyword(),
{
    match ty {
        VarTypes::String => out.append("char "),
        VarTypes::Int32 => out.append("int "),
        VarTypes::Int64 => out.append("int "),
        VarTypes::Float => out.append("float "),
        VarTypes::Double => out.append("double "),
        VarTypes::Bool => out.append("bool "),
        VarTypes::Char => out.append("char "),
    }
}

/// Appends what follows the name of a variable of type `ty`.
pub fn push_brackets(out: &mut String, ty: &VarTypes)
    ensures
        final(out)@ == old(out)@ + ty.brackets(),
{
    match ty {
        VarTypes::String => out.append("[]"),
        _ => {
            assert(out@ =~= out@ + Seq::<char>::empty());
        },
    }
}

/// Appends the statement that declares the variable `name` with `init`.
pub fn push_declaration(out: &mut String, name: &str, init: &VarInit)
    ensures
        final(out)@ == old(out)@ + init.declaration(name@),
{
    match init {
        VarInit::String(s) => {
            out.append("char ");
            out.append(name);
            out.append("[]=");
            push_quoted(out, s);
            out.append(";\n");
            assert(out@ =~= old(out)@ + init.declaration(name@));
        },
        VarInit::Ident(ty, id) => {
            push_keyword(out, ty);
            out.append(name);
            push_brackets(out, ty);
            out.append("=");
            out.append(id);
            out.append(";\n");
            assert(out@ =~= old(out)@ + init.declaration(name@));
        },
        VarInit::Int32(n) => {
            out.append("int ");
            out.append(name);
            out.append("=");
            push_int(out, *n as i64);
            out.append(";\n");
            assert(out@ =~= old(out)@ + init.declaration(name@));
        },
        VarInit::Int64(n) => {
            out.append("int ");
            out.append(name);
            out.append("=");
            push_int(out, *n);
            out.append(";\n");
            assert(out@ =~= old(out)@ + init.declaration(name@));
        },
        VarInit::Float(numeral) => {
            out.append("float ");
            out.append(name);
            out.append("=");
            out.append(numeral);
            out.append(";\n");
            assert(out@ =~= old(out)@ + init.declaration(name@));
        },
        VarInit::Double(numeral) => {
            out.append("double ");
            out.append(name);
            out.append("=");
            out.append(numeral);
            out.append(";\n");
            assert(out@ =~= old(out)@ + init.declaration(name@));
        },
        VarInit::Bool(b) => {
            out.append("bool ");
            out.append(name);
            out.append("=");
            push_bool(out, *b);
            out.append(";\n");
            assert(out@ =~= old(out)@ + init.declaration(name@));
        },
        VarInit::Char(c) => {
            out.append("char ");
            out.append(name);
            out.append("=");
            push_char_text(out, *c);
            out.append(";\n");
            assert(out@ =~= old(out)@ + init.declaration(name@));
        },
        VarInit::SizeString(size) => {
            out.append("char ");
            out.append(name);
            out.append("[");
            push_nat(out, *size as u64);
            out.append("];\n");
            assert(out@ =~= old(out)@ + init.declaration(name@));
        },
    }
}

} // verus!
