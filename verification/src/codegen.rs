//! Declarations, in Rust, of the variables that hold the flags of a usage text.

use vstd::prelude::*;
use vstd::string::*;
use crate::flag::{getter_call, variable_name, Flag, FlagView};
use crate::matcher::flag_views;
use crate::types::rust_name_of;

verus! {

/// The lines that are written once for each flag.
#[derive(Clone, Copy, Debug)]
pub enum Line {
    /// The field of the struct that holds the flag.
    Field,
    /// The line that fills that field.
    Fill,
    /// The line that declares a variable for the flag.
    Declare,
}

/// The line of the kind `kind` for the flag `f`.
pub open spec fn line_for(kind: Line, f: FlagView) -> Seq<char> {
    match kind {
        Line::Field => "\t"@ + variable_name(f.long) + ": "@ + rust_name_of(
            f.vtype,
            f.is_multiple,
        ) + ",\n"@,
        Line::Fill => "\t\t\t"@ + variable_name(f.long) + ": "@ + getter_call(f) + ",\n"@,
        Line::Declare => "    let "@ + variable_name(f.long) + " = "@ + getter_call(f) + ";\n"@,
    }
}

/// The lines of the kind `kind`, one for each flag, in the order of the flags.
pub open spec fn lines_for(kind: Line, flags: Seq<FlagView>) -> Seq<char>
    decreases flags.len(),
{
    if flags.len() == 0 {
        seq![]
    } else {
        lines_for(kind, flags.drop_last()) + line_for(kind, flags.last())
    }
}

/// The declarations for the flags: without a name, one variable for each flag; with a name, the
/// usage text as a constant, a struct of that name with one field for each flag, and the
/// function that fills it from the command line.
pub open spec fn declarations_of(flags: Seq<FlagView>, text: Seq<char>, name: Seq<char>) -> Seq<
    char,
> {
    if name.len() > 0 {
        "const USAGE: &'static str = \"\n"@ + text + "\";\n"@ + "#[derive(Debug)]\nstruct "@
            + name + " {\n"@ + lines_for(Line::Field, flags) + "}\n\nimpl "@ + name
            + " {\n\tfn new() -> ("@ + name + ",lapp::Args<'static>) {\n"@
            + "\t\tlet args = lapp::parse_args(USAGE);\n\t\t("@ + name + "{\n"@ + lines_for(
            Line::Fill,
            flags,
        ) + "\t\t},args)\n\t}\n}\n\n"@
    } else {
        lines_for(Line::Declare, flags)
    }
}

/// Writes the line of the kind `kind` for the flag `f` behind `res`.
fn push_line(res: &mut String, kind: Line, f: &Flag)
    ensures
        final(res)@ == old(res)@ + line_for(kind, f@),
{
    let name = f.rust_name();
    match kind {
        Line::Field => {
            res.append("\t");
            res.append(name.as_str());
            res.append(": ");
            res.append(f.rust_type().as_str());
            res.append(",\n");
        },
        Line::Fill => {
            res.append("\t\t\t");
            res.append(name.as_str());
            res.append(": ");
            res.append(f.getter_name().as_str());
            res.append(",\n");
        },
        Line::Declare => {
            res.append("    let ");
            res.append(name.as_str());
            res.append(" = ");
            res.append(f.getter_name().as_str());
            res.append(";\n");
        },
    }
    proof {
        assert(res@ =~= old(res)@ + line_for(kind, f@));
    }
}

/// Writes the lines of the kind `kind`, one for each flag, behind `res`.
fn push_lines(res: &mut String, kind: Line, flags: &Vec<Flag>)
    ensures
        final(res)@ == old(res)@ + lines_for(kind, flag_views(flags@)),
{
    let ghost all = flag_views(flags@);
    let ghost start = res@;
    let mut i: usize = 0;
    proof {
        assert(all.take(0) =~= seq![]);
        assert(start + Seq::<char>::empty() =~= start);
    }
    while i < flags.len()
        invariant
            i <= flags.len(),
            all == flag_views(flags@),
            res@ == start + lines_for(kind, all.take(i as int)),
        decreases flags.len() - i,
    {
        let ghost before = res@;
        proof {
            assert(all.take(i + 1).drop_last() =~= all.take(i as int));
            assert(all.take(i + 1).last() == flags@[i as int]@);
        }
        push_line(res, kind, &flags[i]);
        proof {
            assert(res@ =~= start + (lines_for(kind, all.take(i as int)) + line_for(
                kind,
                flags@[i as int]@,
            )));
        }
        i += 1;
    }
    proof {
        assert(all.take(i as int) =~= all);
    }
}

/// The declarations for the flags `flags` of the usage text `text`: variables where `name` is
/// empty, else a struct called `name`.
pub fn declare(flags: &Vec<Flag>, text: &str, name: &str) -> (res: String)
    ensures
        res@ == declarations_of(flag_views(flags@), text@, name@),
{
    let mut res = String::new();
    proof {
        assert(res@ =~= Seq::<char>::empty());
    }
    if name.unicode_len() > 0 {
        res.append("const USAGE: &'static str = \"\n");
        res.append(text);
        res.append("\";\n");
        res.append("#[derive(Debug)]\nstruct ");
        res.append(name);
        res.append(" {\n");
        push_lines(&mut res, Line::Field, flags);
        res.append("}\n\nimpl ");
        res.append(name);
        res.append(" {\n\tfn new() -> (");
        res.append(name);
        res.append(",lapp::Args<'static>) {\n");
        res.append("\t\tlet args = lapp::parse_args(USAGE);\n\t\t(");
        res.append(name);
        res.append("{\n");
        push_lines(&mut res, Line::Fill, flags);
        res.append("\t\t},args)\n\t}\n}\n\n");
    } else {
        push_lines(&mut res, Line::Declare, flags);
    }
    proof {
        assert(res@ =~= declarations_of(flag_views(flags@), text@, name@));
    }
    res
}

} // verus!
