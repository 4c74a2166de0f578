//! Templates: ordered sequences of literal text and variable references.
//!
//! A raw template string is scanned left to right. Characters accumulate in a
//! buffer; `{` flushes the buffer as a literal segment (even when it is
//! empty) and starts collecting a variable name; `}` flushes the buffer
//! through the identifier encoder as a variable reference. A non-empty buffer
//! left at the end of the input becomes a final literal segment — so the
//! characters after an unmatched `{` are kept as a trailing literal rather
//! than dropped or reported; this degenerate case is deliberate and tested.

use vstd::prelude::*;
use vstd::string::StrSliceExecFns;
use vstd::string::StringExecFns;
use crate::encode::encode_name;
use crate::encode::encode_var;

verus! {

/// One element of a template: literal text, or a reference to a variable.
/// In parsed values the variable name is already encoded; [`SegModel`] keeps
/// the raw name.
#[derive(Debug, PartialEq, Eq)]
pub enum Segment {
    Literal(String),
    VariableRef(String),
}

/// The mathematical model of a segment: the same two variants over character
/// sequences.
pub enum SegModel {
    Literal(Seq<char>),
    VariableRef(Seq<char>),
}

impl View for Segment {
    type V = SegModel;

    open spec fn view(&self) -> SegModel {
        match self {
            Segment::Literal(s) => SegModel::Literal(s@),
            Segment::VariableRef(s) => SegModel::VariableRef(s@),
        }
    }
}

impl DeepView for Segment {
    type V = SegModel;

    open spec fn deep_view(&self) -> SegModel {
        self@
    }
}

/// The segments of the template `s`, with `acc` the text accumulated so far
/// and variable names kept raw (unencoded).
pub open spec fn segments_from(s: Seq<char>, acc: Seq<char>) -> Seq<SegModel>
    decreases s.len(),
{
    if s.len() == 0 {
        if acc.len() == 0 {
            Seq::empty()
        } else {
            seq![SegModel::Literal(acc)]
        }
    } else if s[0] == '{' {
        seq![SegModel::Literal(acc)] + segments_from(s.skip(1), Seq::empty())
    } else if s[0] == '}' {
        seq![SegModel::VariableRef(acc)] + segments_from(s.skip(1), Seq::empty())
    } else {
        segments_from(s.skip(1), acc.push(s[0]))
    }
}

/// The structural parse of a template: its segments with raw variable names.
pub open spec fn template_segments(s: Seq<char>) -> Seq<SegModel> {
    segments_from(s, Seq::empty())
}

/// A segment as the parser returns it: the variable name run through the
/// identifier encoder.
pub open spec fn encode_segment(m: SegModel) -> SegModel {
    match m {
        SegModel::Literal(l) => SegModel::Literal(l),
        SegModel::VariableRef(v) => SegModel::VariableRef(encode_name(v)),
    }
}

pub open spec fn encode_segments(ms: Seq<SegModel>) -> Seq<SegModel> {
    ms.map_values(|m: SegModel| encode_segment(m))
}

/// Parse a raw template string into its ordered segments, encoding each
/// referenced variable name.
pub fn parse_subst(s: &str) -> (r: Vec<Segment>)
    ensures
        r.deep_view() == encode_segments(template_segments(s@)),
{
    let mut result: Vec<Segment> = Vec::new();
    let mut acc = String::new();
    let n = s.unicode_len();
    proof {
        assert(s@.skip(0) =~= s@);
        assert(result.deep_view() =~= Seq::<SegModel>::empty());
        assert(result.deep_view() + encode_segments(segments_from(s@, acc@))
            =~= encode_segments(template_segments(s@)));
    }
    let mut i: usize = 0;
    while i < n
        invariant
            0 <= i <= n,
            n == s@.len(),
            result.deep_view() + encode_segments(segments_from(s@.skip(i as int), acc@))
                =~= encode_segments(template_segments(s@)),
        decreases n - i,
    {
        let ghost pre = s@.skip(i as int);
        let ghost pre_acc = acc@;
        proof {
            assert(pre[0] == s@[i as int]);
            assert(pre.skip(1) =~= s@.skip(i + 1));
        }
        let c = s.get_char(i);
        if c == '{' {
            result.push(Segment::Literal(acc));
            acc = String::new();
            proof {
                lemma_encode_segments_unfold(
                    SegModel::Literal(pre_acc),
                    segments_from(s@.skip(i + 1), Seq::empty()),
                );
            }
        } else if c == '}' {
            result.push(Segment::VariableRef(encode_var(acc.as_str())));
            acc = String::new();
            proof {
                lemma_encode_segments_unfold(
                    SegModel::VariableRef(pre_acc),
                    segments_from(s@.skip(i + 1), Seq::empty()),
                );
            }
        } else {
            crate::text::push_char(&mut acc, c);
            proof {
                assert(acc@ =~= pre_acc.push(c));
            }
        }
        proof {
            assert(result.deep_view() + encode_segments(segments_from(s@.skip(i + 1), acc@))
                =~= encode_segments(template_segments(s@)));
        }
        i = i + 1;
    }
    if acc.unicode_len() != 0 {
        result.push(Segment::Literal(acc));
        proof {
            lemma_encode_segments_unfold(SegModel::Literal(acc@), Seq::empty());
        }
    }
    proof {
        assert(s@.skip(n as int) =~= Seq::<char>::empty());
        assert(encode_segments(Seq::empty()) =~= Seq::<SegModel>::empty());
        assert(result.deep_view() =~= encode_segments(template_segments(s@)));
    }
    result
}

/// Mapping the encoder over a cons cell distributes through the head.
proof fn lemma_encode_segments_unfold(head: SegModel, tail: Seq<SegModel>)
    ensures
        encode_segments(seq![head] + tail) == seq![encode_segment(head)] + encode_segments(tail),
        encode_segments(Seq::empty()) == Seq::<SegModel>::empty(),
{
    assert(encode_segments(seq![head] + tail) =~= seq![encode_segment(head)] + encode_segments(
        tail,
    ));
    assert(encode_segments(Seq::empty()) =~= Seq::<SegModel>::empty());
}

/// The raw text a segment sequence came from: each literal verbatim, each
/// variable reference as `{name}`.
pub open spec fn serialize_segments(ms: Seq<SegModel>) -> Seq<char>
    decreases ms.len(),
{
    if ms.len() == 0 {
        Seq::empty()
    } else {
        (match ms[0] {
            SegModel::Literal(l) => l,
            SegModel::VariableRef(v) => seq!['{'] + v + seq!['}'],
        }) + serialize_segments(ms.skip(1))
    }
}

/// Balance of braces in a template, scanned with `in_var` saying whether an
/// opening brace is pending: every `{` is closed by a `}`, no stray `}`, and
/// no nested `{`.
pub open spec fn balanced_from(s: Seq<char>, in_var: bool) -> bool
    decreases s.len(),
{
    if s.len() == 0 {
        !in_var
    } else if s[0] == '{' {
        !in_var && balanced_from(s.skip(1), true)
    } else if s[0] == '}' {
        in_var && balanced_from(s.skip(1), false)
    } else {
        balanced_from(s.skip(1), in_var)
    }
}

pub open spec fn balanced(s: Seq<char>) -> bool {
    balanced_from(s, false)
}

/// Round trip: for a template with balanced braces, parsing and then
/// re-serializing the segment sequence recovers exactly the input text.
pub proof fn lemma_parse_serialize_round_trip(s: Seq<char>)
    requires
        balanced(s),
    ensures
        serialize_segments(template_segments(s)) == s,
{
    lemma_round_trip_from(s, Seq::empty(), false);
    assert(Seq::<char>::empty() + s =~= s);
}

proof fn lemma_round_trip_from(s: Seq<char>, acc: Seq<char>, in_var: bool)
    requires
        balanced_from(s, in_var),
    ensures
        !in_var ==> serialize_segments(segments_from(s, acc)) == acc + s,
        in_var ==> serialize_segments(segments_from(s, acc)) == seq!['{'] + acc + s,
    decreases s.len(),
{
    if s.len() == 0 {
        if acc.len() == 0 {
            assert(serialize_segments(segments_from(s, acc)) =~= acc + s);
        } else {
            assert(seq![SegModel::Literal(acc)].skip(1) =~= Seq::<SegModel>::empty());
            assert(seq![SegModel::Literal(acc)][0] == SegModel::Literal(acc));
            assert(serialize_segments(Seq::<SegModel>::empty()) == Seq::<char>::empty());
            assert(serialize_segments(seq![SegModel::Literal(acc)]) == acc
                + Seq::<char>::empty());
            assert(acc + Seq::<char>::empty() =~= acc + s);
            assert(serialize_segments(segments_from(s, acc)) == acc + s);
        }
    } else if s[0] == '{' {
        lemma_round_trip_from(s.skip(1), Seq::empty(), true);
        let tail = segments_from(s.skip(1), Seq::empty());
        assert((seq![SegModel::Literal(acc)] + tail).skip(1) =~= tail);
        assert((seq![SegModel::Literal(acc)] + tail)[0] == SegModel::Literal(acc));
        assert(serialize_segments(seq![SegModel::Literal(acc)] + tail) == acc
            + serialize_segments(tail));
        assert(serialize_segments(tail) == seq!['{'] + Seq::<char>::empty() + s.skip(1));
        assert(segments_from(s, acc) == seq![SegModel::Literal(acc)] + tail);
        assert(acc + (seq!['{'] + Seq::<char>::empty() + s.skip(1)) =~= acc + s);
        assert(serialize_segments(segments_from(s, acc)) == acc + s);
    } else if s[0] == '}' {
        lemma_round_trip_from(s.skip(1), Seq::empty(), false);
        assert((seq![SegModel::VariableRef(acc)] + segments_from(s.skip(1), Seq::empty())).skip(1)
            =~= segments_from(s.skip(1), Seq::empty()));
        if in_var {
            assert(serialize_segments(segments_from(s, acc)) =~= seq!['{'] + acc + s);
        }
    } else {
        lemma_round_trip_from(s.skip(1), acc.push(s[0]), in_var);
        if in_var {
            assert(seq!['{'] + acc.push(s[0]) + s.skip(1) =~= seq!['{'] + acc + s);
        } else {
            assert(acc.push(s[0]) + s.skip(1) =~= acc + s);
        }
    }
}

/// The value a segment stands for at the generated program's run time, given
/// an environment binding variable identifiers to their captured values.
pub open spec fn resolve_segment(m: SegModel, env: Map<Seq<char>, Seq<char>>) -> Seq<char> {
    match m {
        SegModel::Literal(l) => l,
        SegModel::VariableRef(v) => env[v],
    }
}

/// The value a whole template resolves to: the concatenation of its segments'
/// resolved values, exactly in source order.
pub open spec fn resolve_template(ms: Seq<SegModel>, env: Map<Seq<char>, Seq<char>>) -> Seq<char>
    decreases ms.len(),
{
    if ms.len() == 0 {
        Seq::empty()
    } else {
        resolve_segment(ms[0], env) + resolve_template(ms.skip(1), env)
    }
}

/// Resolution of a three-segment template concatenates the three resolved
/// values in order, and its length is the sum of their three lengths.
pub proof fn lemma_resolve_three_segments(
    a: SegModel,
    b: SegModel,
    c: SegModel,
    env: Map<Seq<char>, Seq<char>>,
)
    ensures
        resolve_template(seq![a, b, c], env) == resolve_segment(a, env) + resolve_segment(b, env)
            + resolve_segment(c, env),
        resolve_template(seq![a, b, c], env).len() == resolve_segment(a, env).len()
            + resolve_segment(b, env).len() + resolve_segment(c, env).len(),
{
    assert(seq![a, b, c].skip(1) =~= seq![b, c]);
    assert(seq![b, c].skip(1) =~= seq![c]);
    assert(seq![c].skip(1) =~= Seq::<SegModel>::empty());
    assert(resolve_template(Seq::<SegModel>::empty(), env) == Seq::<char>::empty());
    assert(resolve_template(seq![c], env) =~= resolve_segment(c, env));
    assert(resolve_template(seq![b, c], env) =~= resolve_segment(b, env) + resolve_segment(c, env));
    assert(resolve_template(seq![a, b, c], env) =~= resolve_segment(a, env) + resolve_segment(
        b,
        env,
    ) + resolve_segment(c, env));
}

} // verus!
