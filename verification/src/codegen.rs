//! The code generator: renders the ordered command list as one C translation
//! unit.
//!
//! The caller supplies the fixed runtime boilerplate (the text defining the
//! `run` helper that spawns a process, captures its standard output and
//! propagates a nonzero exit status, ending in an opened `main` block); the
//! generator appends one fresh lexical block per command and the closing
//! brace of `main`. Each block resolves every argument template and then the
//! function template into a local C string — directly for a single-segment
//! template, through a length table, a pointer table and one allocated
//! buffer otherwise — then builds a null-terminated argument vector and
//! either binds the helper's result to the destination variable or passes it
//! to `puts`.

use vstd::prelude::*;
use vstd::string::StrSliceExecFns;
use vstd::string::StringExecFns;
use crate::parser::CmdModel;
use crate::parser::Command;
use crate::parser::DestModel;
use crate::parser::Destination;
use crate::template::SegModel;
use crate::template::Segment;
use crate::text::dec_str;
use crate::text::push_char;
use crate::text::usize_to_string;

verus! {

/// The escaping of one character inside a generated C string literal.
pub open spec fn escape_char(c: char) -> Seq<char> {
    if c == '\\' {
        seq!['\\', '\\']
    } else if c == '\n' {
        seq!['\\', 'n']
    } else if c == '"' {
        seq!['\\', '"']
    } else {
        seq![c]
    }
}

/// The body of a generated C string literal: each character escaped.
pub open spec fn escape_text(s: Seq<char>) -> Seq<char>
    decreases s.len(),
{
    if s.len() == 0 {
        Seq::empty()
    } else {
        escape_char(s[0]) + escape_text(s.skip(1))
    }
}

proof fn lemma_escape_text_snoc(t: Seq<char>, c: char)
    ensures
        escape_text(t.push(c)) == escape_text(t) + escape_char(c),
    decreases t.len(),
{
    if t.len() == 0 {
        assert(t.push(c)[0] == c);
        assert(t.push(c).skip(1) =~= Seq::<char>::empty());
        assert(escape_text(t.push(c)) == escape_char(c) + escape_text(Seq::<char>::empty()));
        assert(escape_text(Seq::<char>::empty()) == Seq::<char>::empty());
        assert(escape_text(t) == Seq::<char>::empty());
        assert(escape_text(t.push(c)) =~= escape_text(t) + escape_char(c));
    } else {
        assert(t.push(c).skip(1) =~= t.skip(1).push(c));
        lemma_escape_text_snoc(t.skip(1), c);
        assert(escape_text(t.push(c)) =~= escape_text(t) + escape_char(c));
    }
}

/// The C expression a segment resolves through: a quoted, escaped string
/// literal for literal text, or the referenced (already encoded) variable.
pub open spec fn literal_text(m: SegModel) -> Seq<char> {
    match m {
        SegModel::Literal(l) => seq!['"'] + escape_text(l) + seq!['"'],
        SegModel::VariableRef(v) => v,
    }
}

/// A direct declaration of `dest`, bound to a single segment's expression:
/// no table, no allocation, no copy.
pub open spec fn decl_text(dest: Seq<char>, m: SegModel) -> Seq<char> {
    "char*"@ + dest + "="@ + literal_text(m) + ";"@
}

/// The items of a brace-enclosed C initializer list, each followed by a
/// comma.
pub open spec fn joined_from(items: Seq<Seq<char>>, k: int) -> Seq<char>
    decreases items.len() - k,
{
    if k < 0 || k >= items.len() {
        Seq::empty()
    } else {
        items[k] + seq![','] + joined_from(items, k + 1)
    }
}

/// A brace-enclosed C initializer list: the items each followed by a comma,
/// then the closing sentinel item, then `};`.
pub open spec fn list_text(items: Seq<Seq<char>>, suffix: Seq<char>) -> Seq<char> {
    seq!['{'] + joined_from(items, 0) + suffix + "};"@
}

/// The `strlen` entry of one segment in a resolution routine's length table.
pub open spec fn strlen_item(m: SegModel) -> Seq<char> {
    "strlen("@ + literal_text(m) + ")"@
}

pub open spec fn strlen_items(segs: Seq<SegModel>) -> Seq<Seq<char>> {
    Seq::new(segs.len(), |i: int| strlen_item(segs[i]))
}

pub open spec fn literal_items(segs: Seq<SegModel>) -> Seq<Seq<char>> {
    Seq::new(segs.len(), |i: int| literal_text(segs[i]))
}

/// The resolution routine for one template, binding `dest`: a direct
/// declaration for a single segment; otherwise a length table with a zero
/// sentinel, a pointer table of the same segments in the same order, a
/// summation of the lengths, an allocation of the total (aborting the
/// generated program if it fails while the length is nonzero), and a
/// sequential copy of each segment's bytes.
pub open spec fn conc_text(segs: Seq<SegModel>, dest: Seq<char>) -> Seq<char> {
    if segs.len() == 1 {
        decl_text(dest, segs[0])
    } else {
        "int lengths["@ + dec_str(segs.len() + 1) + "]="@ + list_text(strlen_items(segs), "0"@)
            + "char*substrings["@ + dec_str(segs.len() + 1) + "]="@ + list_text(
            literal_items(segs),
            "0"@,
        ) + "int length=0;for(int i=0;i<"@ + dec_str(segs.len()) + ";)length+=lengths[i++];"@
            + "char*"@ + dest + "=malloc(length);if("@ + dest + "==NULL&&length!=0)exit(1);char*ref="@
            + dest + ";for(int i=0;i<"@ + dec_str(segs.len())
            + ";)(memcpy(ref,substrings[i],lengths[i]),ref+=lengths[i++]);"@
    }
}

/// A template of exactly one segment resolves through a direct declaration
/// alone: its generated code is the single-segment binding and none of the
/// multi-segment allocation path.
pub proof fn lemma_single_segment_direct(segs: Seq<SegModel>, dest: Seq<char>)
    requires
        segs.len() == 1,
    ensures
        conc_text(segs, dest) == decl_text(dest, segs[0]),
{
}

/// The synthetic local slot name for argument `i`.
pub open spec fn local_name(i: int) -> Seq<char> {
    "local_"@ + dec_str(i as nat)
}

pub open spec fn local_names(n: nat) -> Seq<Seq<char>> {
    Seq::new(n, |i: int| local_name(i))
}

/// The final statement of a command's block: bind the helper's result to the
/// destination variable, or hand it to `puts`.
pub open spec fn dest_text(d: DestModel) -> Seq<char> {
    match d {
        DestModel::ToStandardOutput => "puts(run(func, args))"@,
        DestModel::ToVariable(v) => "char*"@ + v + "=run(func,args)"@,
    }
}

/// The resolution routines of a command's arguments, in order, from index
/// `k` on.
pub open spec fn args_text(args: Seq<Seq<SegModel>>, k: int) -> Seq<char>
    decreases args.len() - k,
{
    if k < 0 || k >= args.len() {
        Seq::empty()
    } else {
        conc_text(args[k], local_name(k)) + args_text(args, k + 1)
    }
}

/// The null-terminated argument vector of a command's block, followed by the
/// call into the runtime helper and the block's closing brace.
pub open spec fn vector_text(c: CmdModel) -> Seq<char> {
    "char*args["@ + dec_str(c.args.len() + 1) + "]="@ + list_text(
        local_names(c.args.len()),
        "(char*)NULL"@,
    ) + dest_text(c.dest) + seq![';', '}']
}

/// One command's generated block: argument resolutions, the function
/// resolution, the null-terminated argument vector, and the call into the
/// runtime helper.
pub open spec fn command_text(c: CmdModel) -> Seq<char> {
    seq!['\n', '{'] + args_text(c.args, 0) + conc_text(c.func, "func"@) + vector_text(c)
}

pub open spec fn commands_text_from(cmds: Seq<CmdModel>, k: int) -> Seq<char>
    decreases cmds.len() - k,
{
    if k < 0 || k >= cmds.len() {
        Seq::empty()
    } else {
        command_text(cmds[k]) + commands_text_from(cmds, k + 1)
    }
}

/// The generated blocks of the whole command list, in order.
pub open spec fn commands_text(cmds: Seq<CmdModel>) -> Seq<char> {
    commands_text_from(cmds, 0)
}

/// The machine limit the generator needs of a command: the rendered counts
/// `len + 1` must fit in a `usize`.
pub open spec fn sizes_ok(c: CmdModel) -> bool {
    c.func.len() < usize::MAX && c.args.len() < usize::MAX && forall|j: int|
        0 <= j < c.args.len() ==> (#[trigger] c.args[j]).len() < usize::MAX
}

/// Append the escaping of `string` to `buf`.
pub fn escape_string_to(string: &str, buf: &mut String)
    ensures
        final(buf)@ == old(buf)@ + escape_text(string@),
{
    let n = string.unicode_len();
    proof {
        assert(string@.take(0) =~= Seq::<char>::empty());
        assert(buf@ =~= old(buf)@ + escape_text(string@.take(0)));
    }
    let mut i: usize = 0;
    while i < n
        invariant
            0 <= i <= n,
            n == string@.len(),
            buf@ == old(buf)@ + escape_text(string@.take(i as int)),
        decreases n - i,
    {
        let c = string.get_char(i);
        if c == '\\' {
            push_char(buf, '\\');
            push_char(buf, '\\');
        } else if c == '\n' {
            push_char(buf, '\\');
            push_char(buf, 'n');
        } else if c == '"' {
            push_char(buf, '\\');
            push_char(buf, '"');
        } else {
            push_char(buf, c);
        }
        proof {
            lemma_escape_text_snoc(string@.take(i as int), string@[i as int]);
            assert(string@.take(i as int).push(string@[i as int]) =~= string@.take(i + 1));
            assert(buf@ =~= old(buf)@ + escape_text(string@.take(i + 1)));
        }
        i = i + 1;
    }
    proof {
        assert(string@.take(n as int) =~= string@);
    }
}

/// Append a segment's C expression to `buf`: a quoted escaped literal, or
/// the referenced variable's identifier.
pub fn write_literal(segment: &Segment, buf: &mut String)
    ensures
        final(buf)@ == old(buf)@ + literal_text(segment@),
{
    match segment {
        Segment::Literal(lit) => {
            push_char(buf, '"');
            escape_string_to(lit.as_str(), buf);
            push_char(buf, '"');
            proof {
                assert(buf@ =~= old(buf)@ + literal_text(segment@));
            }
        },
        Segment::VariableRef(var) => {
            buf.append(var.as_str());
        },
    }
}

/// The direct single-segment declaration of `dest`.
pub fn decl_str(dest: &str, string: &Segment) -> (r: String)
    ensures
        r@ == decl_text(dest@, string@),
{
    let mut result = String::from_str("char*");
    result.append(dest);
    result.append("=");
    write_literal(string, &mut result);
    result.append(";");
    result
}

/// Append a brace-enclosed initializer list of `items`, closed by the
/// sentinel `suffix`.
pub fn format_list(items: &Vec<String>, suffix: &str, buf: &mut String)
    ensures
        final(buf)@ == old(buf)@ + list_text(items.deep_view(), suffix@),
{
    let ghost dv = items.deep_view();
    push_char(buf, '{');
    let ghost r0 = buf@;
    let mut i: usize = 0;
    while i < items.len()
        invariant
            0 <= i <= items@.len(),
            dv == items.deep_view(),
            dv.len() == items@.len(),
            buf@ + joined_from(dv, i as int) == r0 + joined_from(dv, 0),
        decreases items@.len() - i,
    {
        let ghost before = buf@;
        buf.append(items[i].as_str());
        push_char(buf, ',');
        proof {
            assert(dv[i as int] == items@[i as int]@);
            assert(buf@ =~= before + dv[i as int] + seq![',']);
            assert(joined_from(dv, i as int) == dv[i as int] + seq![','] + joined_from(
                dv,
                i + 1,
            ));
            assert(buf@ + joined_from(dv, i + 1) =~= r0 + joined_from(dv, 0));
        }
        i = i + 1;
    }
    buf.append(suffix);
    buf.append("};");
    proof {
        assert(joined_from(dv, dv.len() as int) == Seq::<char>::empty());
        assert(buf@ =~= old(buf)@ + list_text(dv, suffix@));
    }
}

/// Append the resolution routine binding `dest` to the template `subst`.
#[verifier::rlimit(100)]
pub fn conc(subst: &Vec<Segment>, dest: &str, result: &mut String)
    requires
        subst@.len() < usize::MAX,
    ensures
        final(result)@ == old(result)@ + conc_text(subst.deep_view(), dest@),
{
    let ghost segs = subst.deep_view();
    if subst.len() == 1 {
        let d = decl_str(dest, &subst[0]);
        result.append(d.as_str());
        proof {
            assert(segs[0] == subst@[0]@);
            assert(result@ =~= old(result)@ + conc_text(segs, dest@));
        }
        return ;
    }
    let num = usize_to_string(subst.len() + 1);
    let cnt = usize_to_string(subst.len());
    result.append("int lengths[");
    result.append(num.as_str());
    result.append("]=");
    let mut items: Vec<String> = Vec::new();
    let mut i: usize = 0;
    while i < subst.len()
        invariant
            0 <= i <= subst@.len(),
            segs == subst.deep_view(),
            segs.len() == subst@.len(),
            items.deep_view().len() == i,
            forall|j: int|
                0 <= j < i ==> items.deep_view()[j] == strlen_item(#[trigger] segs[j]),
        decreases subst@.len() - i,
    {
        let mut s = String::from_str("strlen(");
        write_literal(&subst[i], &mut s);
        s.append(")");
        let ghost items_before = items.deep_view();
        items.push(s);
        proof {
            assert(segs[i as int] == subst@[i as int]@);
            assert(s@ =~= strlen_item(segs[i as int]));
            assert(items.deep_view() =~= items_before.push(s@));
        }
        i = i + 1;
    }
    proof {
        assert(items.deep_view() =~~= strlen_items(segs));
    }
    format_list(&items, "0", result);
    result.append("char*substrings[");
    result.append(num.as_str());
    result.append("]=");
    let mut exprs: Vec<String> = Vec::new();
    let mut k: usize = 0;
    while k < subst.len()
        invariant
            0 <= k <= subst@.len(),
            segs == subst.deep_view(),
            segs.len() == subst@.len(),
            exprs.deep_view().len() == k,
            forall|j: int|
                0 <= j < k ==> exprs.deep_view()[j] == literal_text(#[trigger] segs[j]),
        decreases subst@.len() - k,
    {
        let mut s = String::new();
        write_literal(&subst[k], &mut s);
        let ghost exprs_before = exprs.deep_view();
        exprs.push(s);
        proof {
            assert(segs[k as int] == subst@[k as int]@);
            assert(s@ =~= literal_text(segs[k as int]));
            assert(exprs.deep_view() =~= exprs_before.push(s@));
        }
        k = k + 1;
    }
    proof {
        assert(exprs.deep_view() =~~= literal_items(segs));
    }
    format_list(&exprs, "0", result);
    result.append("int length=0;for(int i=0;i<");
    result.append(cnt.as_str());
    result.append(";)length+=lengths[i++];");
    result.append("char*");
    result.append(dest);
    result.append("=malloc(length);if(");
    result.append(dest);
    result.append("==NULL&&length!=0)exit(1);char*ref=");
    result.append(dest);
    result.append(";for(int i=0;i<");
    result.append(cnt.as_str());
    result.append(";)(memcpy(ref,substrings[i],lengths[i]),ref+=lengths[i++]);");
    proof {
        assert(result@ =~= old(result)@ + conc_text(segs, dest@));
    }
}


/// Append one command's whole generated block to `result`.
#[verifier::rlimit(100)]
fn emit_command(cmd: &Command, result: &mut String)
    requires
        sizes_ok(cmd@),
    ensures
        final(result)@ == old(result)@ + command_text(cmd@),
{
    proof {
        assert(cmd.args.deep_view() == cmd@.args);
        assert(cmd.func.deep_view() == cmd@.func);
    }
    push_char(result, '\n');
    push_char(result, '{');
    let ghost r0 = result@;
    let mut j: usize = 0;
    while j < cmd.args.len()
        invariant
            0 <= j <= cmd.args@.len(),
            sizes_ok(cmd@),
            cmd.args.deep_view() == cmd@.args,
            cmd@.args.len() == cmd.args@.len(),
            result@ + args_text(cmd@.args, j as int) == r0 + args_text(cmd@.args, 0),
        decreases cmd.args@.len() - j,
    {
        let mut name = String::from_str("local_");
        let number = usize_to_string(j);
        name.append(number.as_str());
        proof {
            assert(cmd.args.deep_view()[j as int] == cmd.args@[j as int].deep_view());
            assert(cmd@.args[j as int].len() < usize::MAX);
            assert(name@ == local_name(j as int));
        }
        conc(&cmd.args[j], name.as_str(), result);
        proof {
            assert(args_text(cmd@.args, j as int) == conc_text(
                cmd@.args[j as int],
                local_name(j as int),
            ) + args_text(cmd@.args, j + 1));
            assert(result@ + args_text(cmd@.args, j + 1) =~= r0 + args_text(cmd@.args, 0));
        }
        j = j + 1;
    }
    proof {
        assert(args_text(cmd@.args, cmd@.args.len() as int) == Seq::<char>::empty());
        assert(result@ =~= r0 + args_text(cmd@.args, 0));
    }
    conc(&cmd.func, "func", result);
    let ghost r1 = result@;
    emit_vector_and_call(cmd, result);
    proof {
        assert(result@ == r1 + vector_text(cmd@));
        assert(r0 =~= old(result)@ + seq!['\n', '{']);
        assert(result@ =~= old(result)@ + command_text(cmd@));
    }
}

/// Append a command's argument-vector declaration, the helper call, and the
/// block's closing brace to `result`.
#[verifier::rlimit(100)]
fn emit_vector_and_call(cmd: &Command, result: &mut String)
    requires
        sizes_ok(cmd@),
    ensures
        final(result)@ == old(result)@ + vector_text(cmd@),
{
    proof {
        assert(cmd.args.deep_view() == cmd@.args);
    }
    result.append("char*args[");
    let count = usize_to_string(cmd.args.len() + 1);
    result.append(count.as_str());
    result.append("]=");
    let mut locals: Vec<String> = Vec::new();
    let mut m: usize = 0;
    while m < cmd.args.len()
        invariant
            0 <= m <= cmd.args@.len(),
            locals.deep_view().len() == m,
            forall|i: int| 0 <= i < m ==> locals.deep_view()[i] == local_name(i),
        decreases cmd.args@.len() - m,
    {
        let mut name = String::from_str("local_");
        let number = usize_to_string(m);
        name.append(number.as_str());
        let ghost locals_before = locals.deep_view();
        locals.push(name);
        proof {
            assert(locals.deep_view() =~= locals_before.push(local_name(m as int)));
        }
        m = m + 1;
    }
    proof {
        assert(locals.deep_view() =~~= local_names(cmd.args@.len() as nat));
        assert(cmd.args@.len() == cmd@.args.len());
    }
    format_list(&locals, "(char*)NULL", result);
    match &cmd.dest {
        Destination::ToStandardOutput => {
            result.append("puts(run(func, args))");
        },
        Destination::ToVariable(v) => {
            result.append("char*");
            result.append(v.as_str());
            result.append("=run(func,args)");
        },
    }
    push_char(result, ';');
    push_char(result, '}');
    proof {
        assert(result@ =~= old(result)@ + vector_text(cmd@));
    }
}

/// Render the whole program: the supplied runtime boilerplate, one block per
/// command in order, and the closing brace of `main`.
pub fn output(actions: &Vec<Command>, header: &str) -> (r: String)
    requires
        forall|i: int|
            0 <= i < actions.deep_view().len() ==> sizes_ok(#[trigger] actions.deep_view()[i]),
    ensures
        r@ == header@ + commands_text(actions.deep_view()) + seq!['}'],
{
    let ghost cmds = actions.deep_view();
    let mut result = String::from_str(header);
    let mut idx: usize = 0;
    while idx < actions.len()
        invariant
            0 <= idx <= actions@.len(),
            cmds == actions.deep_view(),
            cmds.len() == actions@.len(),
            forall|i: int| 0 <= i < cmds.len() ==> sizes_ok(#[trigger] cmds[i]),
            result@ + commands_text_from(cmds, idx as int) == header@ + commands_text_from(
                cmds,
                0,
            ),
        decreases actions@.len() - idx,
    {
        let cmd = &actions[idx];
        proof {
            assert(cmd@ == cmds[idx as int]);
        }
        emit_command(cmd, &mut result);
        proof {
            assert(commands_text_from(cmds, idx as int) == command_text(cmds[idx as int])
                + commands_text_from(cmds, idx + 1));
            assert(result@ + commands_text_from(cmds, idx + 1) =~= header@ + commands_text_from(
                cmds,
                0,
            ));
        }
        idx = idx + 1;
    }
    push_char(&mut result, '}');
    proof {
        assert(commands_text_from(cmds, cmds.len() as int) == Seq::<char>::empty());
        assert(result@ =~= header@ + commands_text(cmds) + seq!['}']);
    }
    result
}

} // verus!
