//! The line parser: turns each script line into one [`Command`].
//!
//! A line splits at the first `=` into a destination token and a remainder,
//! the remainder splits at the first `(` into a function template and an
//! argument list, and the argument list splits at each `,`, the final
//! argument closed by the first `)` or, failing that, the end of the line.
//! A missing delimiter is treated as "rest of line": malformed lines still
//! produce some deterministic command rather than an error. The destination
//! token `%` sends the command's output to standard output; any other token
//! is taken verbatim as the target variable's identifier.

use vstd::prelude::*;
use vstd::string::StrSliceExecFns;
use vstd::string::StringExecFns;
use crate::template::SegModel;
use crate::template::Segment;
use crate::template::encode_segments;
use crate::template::parse_subst;
use crate::template::template_segments;
use crate::text::find_char;
use crate::text::find_from;
use crate::text::lemma_find_from;
use crate::text::trim_spec;
use crate::text::trim_str;

verus! {

/// Where a command's captured output goes: bound to a script-level variable,
/// or written to standard output.
#[derive(Debug, PartialEq, Eq)]
pub enum Destination {
    ToVariable(String),
    ToStandardOutput,
}

pub enum DestModel {
    ToVariable(Seq<char>),
    ToStandardOutput,
}

impl View for Destination {
    type V = DestModel;

    open spec fn view(&self) -> DestModel {
        match self {
            Destination::ToVariable(name) => DestModel::ToVariable(name@),
            Destination::ToStandardOutput => DestModel::ToStandardOutput,
        }
    }
}

impl DeepView for Destination {
    type V = DestModel;

    open spec fn deep_view(&self) -> DestModel {
        self@
    }
}

/// One parsed script line: the function template, its argument templates in
/// order, and the destination. Built once by the parser and read, never
/// changed, by the code generator.
#[derive(Debug, PartialEq, Eq)]
pub struct Command {
    pub func: Vec<Segment>,
    pub args: Vec<Vec<Segment>>,
    pub dest: Destination,
}

/// The model of a command: segment sequences (with encoded variable names)
/// and the destination.
pub struct CmdModel {
    pub func: Seq<SegModel>,
    pub args: Seq<Seq<SegModel>>,
    pub dest: DestModel,
}

impl View for Command {
    type V = CmdModel;

    open spec fn view(&self) -> CmdModel {
        CmdModel { func: self.func.deep_view(), args: self.args.deep_view(), dest: self.dest@ }
    }
}

impl DeepView for Command {
    type V = CmdModel;

    open spec fn deep_view(&self) -> CmdModel {
        self@
    }
}

/// Split at the first occurrence of `d`: the text before it with surrounding
/// whitespace trimmed, and the text after it — or the whole (trimmed) text
/// and an empty remainder when `d` does not occur.
pub open spec fn split_word(s: Seq<char>, d: char) -> (Seq<char>, Seq<char>) {
    let i = find_from(s, d);
    if i < s.len() {
        (trim_spec(s.take(i)), s.skip(i + 1))
    } else {
        (trim_spec(s), Seq::empty())
    }
}

/// The raw argument tokens of the text after `(`: split at each `,`, the
/// final token closed by the first `)` or the end of the text. There is
/// always at least one token, possibly empty.
pub open spec fn split_args(rest: Seq<char>) -> Seq<Seq<char>>
    decreases rest.len()
        via split_args_decreases
{
    let i = find_from(rest, ',');
    if i < rest.len() {
        seq![rest.take(i)] + split_args(rest.skip(i + 1))
    } else {
        seq![rest.take(find_from(rest, ')'))]
    }
}

#[via_fn]
proof fn split_args_decreases(rest: Seq<char>) {
    lemma_find_from(rest, ',');
}

/// The templates of a list of raw argument tokens, each parsed with its
/// variable names encoded.
pub open spec fn arg_templates(raws: Seq<Seq<char>>) -> Seq<Seq<SegModel>>
    decreases raws.len(),
{
    if raws.len() == 0 {
        Seq::empty()
    } else {
        seq![encode_segments(template_segments(raws[0]))] + arg_templates(raws.skip(1))
    }
}

/// The command one script line parses to.
pub open spec fn line_command(line: Seq<char>) -> CmdModel {
    let (dest_tok, rest1) = split_word(line, '=');
    let (func_tok, rest2) = split_word(rest1, '(');
    CmdModel {
        func: encode_segments(template_segments(func_tok)),
        args: arg_templates(split_args(rest2)),
        dest: if dest_tok == seq!['%'] {
            DestModel::ToStandardOutput
        } else {
            DestModel::ToVariable(dest_tok)
        },
    }
}

/// Split `string` at the first occurrence of `delim`, trimming the first
/// part, with a missing delimiter treated as the end of the string.
pub fn parse_word<'a>(string: &'a str, delim: char) -> (r: (&'a str, &'a str))
    ensures
        r.0@ == split_word(string@, delim).0,
        r.1@ == split_word(string@, delim).1,
{
    proof {
        lemma_find_from(string@, delim);
    }
    let n = string.unicode_len();
    let i = find_char(string, delim);
    if i < n {
        let before = string.substring_char(0, i);
        let after = string.substring_char(i + 1, n);
        proof {
            assert(before@ =~= string@.take(i as int));
            assert(after@ =~= string@.skip(i + 1));
        }
        (trim_str(before), after)
    } else {
        let after = string.substring_char(n, n);
        proof {
            assert(string@.take(n as int) =~= string@);
            assert(after@ =~= Seq::<char>::empty());
        }
        (trim_str(string), after)
    }
}

/// Parse one script line into a command.
fn parse_line(line: &str) -> (c: Command)
    ensures
        c@ == line_command(line@),
{
    let (variable, rest1) = parse_word(line, '=');
    let (action, rest2) = parse_word(rest1, '(');
    let mut args: Vec<Vec<Segment>> = Vec::new();
    let mut rem: &str = rest2;
    proof {
        assert(args.deep_view() =~= Seq::<Seq<SegModel>>::empty());
        assert(args.deep_view() + arg_templates(split_args(rem@)) =~= arg_templates(
            split_args(rest2@),
        ));
    }
    loop
        invariant_except_break
            args.deep_view() + arg_templates(split_args(rem@)) =~= arg_templates(
                split_args(rest2@),
            ),
        ensures
            args.deep_view() == arg_templates(split_args(rest2@)),
        decreases rem@.len(),
    {
        proof {
            lemma_find_from(rem@, ',');
        }
        let n = rem.unicode_len();
        let i = find_char(rem, ',');
        let ghost before = args.deep_view();
        if i < n {
            let tok = rem.substring_char(0, i);
            proof {
                assert(tok@ =~= rem@.take(i as int));
            }
            args.push(parse_subst(tok));
            let rem2 = rem.substring_char(i + 1, n);
            proof {
                assert(rem2@ =~= rem@.skip(i + 1));
                assert(split_args(rem@) == seq![rem@.take(i as int)] + split_args(rem@.skip(i + 1)));
                lemma_arg_templates_unfold(rem@.take(i as int), split_args(rem@.skip(i + 1)));
                assert(args.deep_view() =~= before.push(
                    encode_segments(template_segments(rem@.take(i as int))),
                ));
                assert(args.deep_view() + arg_templates(split_args(rem2@)) =~= arg_templates(
                    split_args(rest2@),
                ));
            }
            rem = rem2;
        } else {
            proof {
                lemma_find_from(rem@, ')');
            }
            let end = find_char(rem, ')');
            let tok = rem.substring_char(0, end);
            proof {
                assert(tok@ =~= rem@.take(find_from(rem@, ')')));
            }
            args.push(parse_subst(tok));
            proof {
                assert(split_args(rem@) == seq![rem@.take(find_from(rem@, ')'))]);
                lemma_arg_templates_unfold(rem@.take(find_from(rem@, ')')), Seq::empty());
                assert(args.deep_view() =~= before.push(
                    encode_segments(template_segments(rem@.take(find_from(rem@, ')')))),
                ));
                assert(args.deep_view() =~= arg_templates(split_args(rest2@)));
            }
            break;
        }
    }
    let dest: Destination = if variable.unicode_len() == 1 && variable.get_char(0) == '%' {
        proof {
            assert(variable@ =~= seq!['%']);
        }
        Destination::ToStandardOutput
    } else {
        proof {
            if variable@ == seq!['%'] {
                assert(variable@.len() == 1 && variable@[0] == '%');
            }
        }
        Destination::ToVariable(String::from_str(variable))
    };
    let c = Command { func: parse_subst(action), args, dest };
    proof {
        assert(c@.func == line_command(line@).func);
        assert(c@.args == line_command(line@).args);
        assert(c@.dest == line_command(line@).dest);
    }
    c
}

proof fn lemma_arg_templates_unfold(head: Seq<char>, tail: Seq<Seq<char>>)
    ensures
        arg_templates(seq![head] + tail) == seq![encode_segments(template_segments(head))]
            + arg_templates(tail),
        arg_templates(Seq::<Seq<char>>::empty()) == Seq::<Seq<SegModel>>::empty(),
{
    assert((seq![head] + tail)[0] == head);
    assert((seq![head] + tail).skip(1) =~= tail);
    assert(arg_templates(seq![head] + tail) =~= seq![encode_segments(template_segments(head))]
        + arg_templates(tail));
    assert(arg_templates(Seq::<Seq<char>>::empty()) =~= Seq::<Seq<SegModel>>::empty());
}

/// A line with its trailing carriage return, if any, removed.
pub open spec fn strip_cr(l: Seq<char>) -> Seq<char> {
    if l.len() > 0 && l[l.len() - 1] == '\r' {
        l.take(l.len() - 1)
    } else {
        l
    }
}

/// The lines of a script text: split at each newline, a trailing carriage
/// return stripped from each line, and no final empty line for a text that
/// ends in a newline.
pub open spec fn split_lines(s: Seq<char>) -> Seq<Seq<char>>
    decreases s.len()
        via split_lines_decreases
{
    if s.len() == 0 {
        Seq::empty()
    } else {
        let i = find_from(s, '\n');
        if i < s.len() {
            seq![strip_cr(s.take(i))] + split_lines(s.skip(i + 1))
        } else {
            seq![strip_cr(s)]
        }
    }
}

#[via_fn]
proof fn split_lines_decreases(s: Seq<char>) {
    lemma_find_from(s, '\n');
}

/// The commands of a list of lines, one per non-empty line, in order.
pub open spec fn lines_commands(lines: Seq<Seq<char>>) -> Seq<CmdModel>
    decreases lines.len(),
{
    if lines.len() == 0 {
        Seq::empty()
    } else if lines[0].len() == 0 {
        lines_commands(lines.skip(1))
    } else {
        seq![line_command(lines[0])] + lines_commands(lines.skip(1))
    }
}

/// The ordered command list of a whole script text.
pub open spec fn script_commands(s: Seq<char>) -> Seq<CmdModel> {
    lines_commands(split_lines(s))
}

/// Parse a script text, appending one command per non-empty line to
/// `actions` in source order.
pub fn parse(string: &str, actions: &mut Vec<Command>)
    ensures
        final(actions).deep_view() == old(actions).deep_view() + script_commands(string@),
{
    let mut rem: &str = string;
    proof {
        assert(actions.deep_view() + lines_commands(split_lines(rem@)) =~= old(
            actions,
        ).deep_view() + script_commands(string@));
    }
    loop
        invariant
            actions.deep_view() + lines_commands(split_lines(rem@)) =~= old(actions).deep_view()
                + script_commands(string@),
        ensures
            rem@.len() == 0,
            actions.deep_view() + lines_commands(split_lines(rem@)) =~= old(actions).deep_view()
                + script_commands(string@),
        decreases rem@.len(),
    {
        let n = rem.unicode_len();
        if n == 0 {
            break;
        }
        proof {
            lemma_find_from(rem@, '\n');
        }
        let i = find_char(rem, '\n');
        let line_raw = if i < n {
            rem.substring_char(0, i)
        } else {
            rem
        };
        proof {
            if i < n {
                assert(line_raw@ =~= rem@.take(i as int));
            } else {
                assert(line_raw@ =~= rem@.take(find_from(rem@, '\n')));
            }
        }
        let m = line_raw.unicode_len();
        let line = if m > 0 && line_raw.get_char(m - 1) == '\r' {
            let stripped = line_raw.substring_char(0, m - 1);
            proof {
                assert(stripped@ =~= line_raw@.take(line_raw@.len() - 1));
            }
            stripped
        } else {
            line_raw
        };
        assert(line@ == strip_cr(line_raw@));
        let ghost before = actions.deep_view();
        if line.unicode_len() > 0 {
            let c = parse_line(line);
            actions.push(c);
            proof {
                assert(actions.deep_view() =~= before.push(line_command(line@)));
            }
        }
        let rem2 = if i < n {
            rem.substring_char(i + 1, n)
        } else {
            rem.substring_char(n, n)
        };
        proof {
            if i < n {
                assert(rem2@ =~= rem@.skip(i + 1));
                assert(split_lines(rem@) == seq![strip_cr(rem@.take(i as int))] + split_lines(
                    rem@.skip(i + 1),
                ));
                lemma_lines_commands_unfold(strip_cr(rem@.take(i as int)), split_lines(rem@.skip(i + 1)));
            } else {
                assert(rem2@ =~= Seq::<char>::empty());
                assert(split_lines(rem@) == seq![strip_cr(rem@)]);
                lemma_lines_commands_unfold(strip_cr(rem@), Seq::empty());
                assert(split_lines(rem2@) =~= Seq::<Seq<char>>::empty());
            }
            assert(actions.deep_view() + lines_commands(split_lines(rem2@)) =~= old(
                actions,
            ).deep_view() + script_commands(string@));
        }
        rem = rem2;
    }
    proof {
        assert(split_lines(rem@) =~= Seq::<Seq<char>>::empty());
        assert(actions.deep_view() =~= old(actions).deep_view() + script_commands(string@));
    }
}

proof fn lemma_lines_commands_unfold(head: Seq<char>, tail: Seq<Seq<char>>)
    ensures
        head.len() == 0 ==> lines_commands(seq![head] + tail) == lines_commands(tail),
        head.len() > 0 ==> lines_commands(seq![head] + tail) == seq![line_command(head)]
            + lines_commands(tail),
        lines_commands(Seq::<Seq<char>>::empty()) == Seq::<CmdModel>::empty(),
{
    assert((seq![head] + tail)[0] == head);
    assert((seq![head] + tail).skip(1) =~= tail);
    if head.len() == 0 {
        assert(lines_commands(seq![head] + tail) == lines_commands(tail));
    } else {
        assert(lines_commands(seq![head] + tail) =~= seq![line_command(head)] + lines_commands(
            tail,
        ));
    }
    assert(lines_commands(Seq::<Seq<char>>::empty()) =~= Seq::<CmdModel>::empty());
}

} // verus!
