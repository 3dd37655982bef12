//! The execution tracer: an explicit, caller-owned recorder of one nested
//! call trace, and the renderer that turns a recorded trace into indented
//! text, one line per call.
//!
//! A traced call pushes `Start(name)`, one argument event per argument, a
//! `FinishArg` marker, and — once the call returns — a finish event with
//! the result. Completed traces are well nested: the nesting depth never
//! goes negative and returns to zero exactly when the outermost call ends,
//! at which point the number of `Start` events equals the number of finish
//! events ([`lemma_trace_balance`]).

use vstd::prelude::*;

use crate::utils::dec_str;
use crate::utils::usize_to_string;

verus! {

/// One recorded step of a traced evaluation.
///
/// Real-valued arguments and results arrive already rendered as text,
/// since rendering a real number is the producer's concern; machine
/// integers are carried as values and rendered here.
#[derive(Debug)]
pub enum Item {
    /// Name of the function `F` entered in `F(v, x)`.
    Start(String),
    /// Name and value of a machine-integer argument.
    ArgUsize(String, usize),
    /// Name and rendered value of a numeric argument.
    ArgNum(String, String),
    /// Marks the end of the argument events of the innermost open call.
    FinishArg,
    /// The 3-channel color result of the innermost open call.
    FinishRgb(u8, u8, u8),
    /// The rendered numeric result of the innermost open call.
    FinishNum(String),
}

/// Whether an event opens a call.
pub open spec fn is_start(i: Item) -> bool {
    i is Start
}

/// Whether an event closes a call.
pub open spec fn is_finish(i: Item) -> bool {
    i is FinishRgb || i is FinishNum
}

/// How an event changes the nesting depth.
pub open spec fn item_delta(i: Item) -> int {
    if is_start(i) {
        1
    } else if is_finish(i) {
        -1
    } else {
        0
    }
}

/// The nesting depth after an event sequence: calls opened minus calls
/// closed.
pub open spec fn depth_of(s: Seq<Item>) -> int
    decreases s.len(),
{
    if s.len() == 0 {
        0
    } else {
        depth_of(s.drop_last()) + item_delta(s.last())
    }
}

/// The number of `Start` events.
pub open spec fn count_starts(s: Seq<Item>) -> int
    decreases s.len(),
{
    if s.len() == 0 {
        0
    } else {
        count_starts(s.drop_last()) + if is_start(s.last()) {
            1int
        } else {
            0int
        }
    }
}

/// The number of finish events.
pub open spec fn count_finishes(s: Seq<Item>) -> int
    decreases s.len(),
{
    if s.len() == 0 {
        0
    } else {
        count_finishes(s.drop_last()) + if is_finish(s.last()) {
            1int
        } else {
            0int
        }
    }
}

/// The nesting depth never goes negative at any point of the sequence.
pub open spec fn well_nested(s: Seq<Item>) -> bool {
    forall|i: int| 0 <= i <= s.len() ==> depth_of(#[trigger] s.subrange(0, i)) >= 0
}

/// Trace balance: the nesting depth of an event stream is exactly the
/// number of `Start` events minus the number of finish events; in
/// particular, a stream whose depth has returned to zero holds as many
/// `Start` events as finish events.
pub proof fn lemma_trace_balance(s: Seq<Item>)
    ensures
        depth_of(s) == count_starts(s) - count_finishes(s),
        depth_of(s) == 0 ==> count_starts(s) == count_finishes(s),
    decreases s.len(),
{
    if s.len() > 0 {
        lemma_trace_balance(s.drop_last());
    }
}

/// The depth moves by at most one per event, so it is bounded by the
/// stream's length.
pub proof fn lemma_depth_bounds(s: Seq<Item>)
    ensures
        -s.len() <= depth_of(s) <= s.len(),
    decreases s.len(),
{
    if s.len() > 0 {
        lemma_depth_bounds(s.drop_last());
    }
}

/// The recorder for one traced invocation: an ordered event stream, the
/// current nesting depth, and the caller-controlled "should trace" flag,
/// off by default.
pub struct Tracer {
    stack: Vec<Item>,
    depth: usize,
    tracking: bool,
}

impl Tracer {
    /// The recorded events, oldest first.
    pub closed spec fn events(self) -> Seq<Item> {
        self.stack@
    }

    /// Whether traced calls should currently record events.
    pub closed spec fn tracking(self) -> bool {
        self.tracking
    }

    /// The recorded stream is well nested and the cached depth agrees
    /// with it.
    pub closed spec fn inv(self) -> bool {
        &&& self.depth == depth_of(self.stack@)
        &&& well_nested(self.stack@)
    }

    /// An empty trace, with tracing off.
    pub fn new() -> (t: Tracer)
        ensures
            t.inv(),
            t.events() =~= Seq::<Item>::empty(),
            !t.tracking(),
    {
        Tracer { stack: Vec::new(), depth: 0, tracking: false }
    }

    /// Switch event recording on or off; the recorded events stay.
    pub fn set_should_track(&mut self, track: bool)
        requires
            old(self).inv(),
        ensures
            final(self).inv(),
            final(self).events() == old(self).events(),
            final(self).tracking() == track,
    {
        self.tracking = track;
    }

    /// Whether traced calls should currently record events.
    pub fn should_track(&self) -> (r: bool)
        ensures
            r == self.tracking(),
    {
        self.tracking
    }

    /// The current nesting depth: calls opened and not yet finished.
    pub fn depth(&self) -> (d: usize)
        requires
            self.inv(),
        ensures
            d == depth_of(self.events()),
    {
        self.depth
    }

    /// Record one event. A finish event needs an open call to close; a
    /// `Start` needs the depth to be representable.
    pub fn push_stack(&mut self, i: Item)
        requires
            old(self).inv(),
            is_finish(i) ==> depth_of(old(self).events()) > 0,
            is_start(i) ==> depth_of(old(self).events()) < usize::MAX,
        ensures
            final(self).inv(),
            final(self).events() == old(self).events().push(i),
            final(self).tracking() == old(self).tracking(),
    {
        proof {
            lemma_depth_bounds(self.stack@);
            assert(self.stack@.push(i).drop_last() =~= self.stack@);
            assert forall|k: int| 0 <= k <= self.stack@.push(i).len() implies depth_of(
                #[trigger] self.stack@.push(i).subrange(0, k),
            ) >= 0 by {
                if k <= self.stack@.len() {
                    assert(self.stack@.push(i).subrange(0, k) =~= self.stack@.subrange(0, k));
                } else {
                    assert(self.stack@.push(i).subrange(0, k) =~= self.stack@.push(i));
                }
            }
        }
        let is_s = match &i {
            Item::Start(_) => true,
            _ => false,
        };
        let is_f = match &i {
            Item::FinishRgb(_, _, _) => true,
            Item::FinishNum(_) => true,
            _ => false,
        };
        if is_s {
            self.depth = self.depth + 1;
        } else if is_f {
            self.depth = self.depth - 1;
        }
        self.stack.push(i);
    }

    /// Drain the recorded events, leaving an empty trace; the flag stays.
    pub fn take_stack(&mut self) -> (items: Vec<Item>)
        requires
            old(self).inv(),
        ensures
            final(self).inv(),
            items@ == old(self).events(),
            final(self).events() =~= Seq::<Item>::empty(),
            final(self).tracking() == old(self).tracking(),
    {
        let mut out: Vec<Item> = Vec::new();
        core::mem::swap(&mut out, &mut self.stack);
        self.depth = 0;
        out
    }
}

/// `n` spaces.
pub open spec fn spaces(n: int) -> Seq<char>
    decreases n,
{
    if n <= 0 {
        Seq::empty()
    } else {
        spaces(n - 1).push(' ')
    }
}

proof fn lemma_spaces(n: int)
    ensures
        spaces(n).len() == if n <= 0 { 0int } else { n },
        forall|i: int| 0 <= i < spaces(n).len() ==> spaces(n)[i] == ' ',
    decreases n,
{
    if n > 0 {
        lemma_spaces(n - 1);
    }
}

/// The views of the rendered lines.
pub open spec fn views_of(ls: Seq<String>) -> Seq<Seq<char>> {
    ls.map_values(|l: String| l@)
}

/// A comma and a space stand before every argument but a call's first,
/// which directly follows its `Start` event.
pub open spec fn arg_sep(prev: Option<Item>) -> Seq<char> {
    match prev {
        Some(p) => if is_start(p) {
            Seq::empty()
        } else {
            seq![',', ' ']
        },
        None => Seq::empty(),
    }
}

/// How one event extends the text built so far: `lines` is one rendered
/// line per `Start` seen, `stack` the line indices of the calls still
/// open (innermost last), `prev` the event just before this one.
///
/// A `Start` opens a new line, indented two spaces per open call;
/// arguments, the argument terminator and the result all append to the
/// innermost open call's line, and a finish closes that call.
pub open spec fn render_step(
    lines: Seq<Seq<char>>,
    stack: Seq<int>,
    prev: Option<Item>,
    it: Item,
) -> (Seq<Seq<char>>, Seq<int>) {
    match it {
        Item::Start(name) => (
            lines.push(spaces(2 * stack.len() as int) + name@ + seq!['(']),
            stack.push(lines.len() as int),
        ),
        Item::ArgUsize(name, val) => (
            lines.update(
                stack.last(),
                lines[stack.last()] + arg_sep(prev) + name@ + seq![' ', '=', ' '] + dec_str(
                    val as int,
                ),
            ),
            stack,
        ),
        Item::ArgNum(name, text) => (
            lines.update(
                stack.last(),
                lines[stack.last()] + arg_sep(prev) + name@ + seq![' ', '=', ' '] + text@,
            ),
            stack,
        ),
        Item::FinishArg => (lines.update(stack.last(), lines[stack.last()] + seq![')']), stack),
        Item::FinishRgb(r, g, b) => (
            lines.update(
                stack.last(),
                lines[stack.last()] + seq![' ', '=', ' ', '('] + dec_str(r as int) + seq![
                    ',',
                    ' ',
                ] + dec_str(g as int) + seq![',', ' '] + dec_str(b as int) + seq![')'],
            ),
            stack.drop_last(),
        ),
        Item::FinishNum(text) => (
            lines.update(stack.last(), lines[stack.last()] + seq![' ', '=', ' '] + text@),
            stack.drop_last(),
        ),
    }
}

/// The rendered lines and the stack of still-open calls after a whole
/// event stream, one event at a time.
pub open spec fn render_state(s: Seq<Item>) -> (Seq<Seq<char>>, Seq<int>)
    decreases s.len(),
{
    if s.len() == 0 {
        (Seq::<Seq<char>>::empty(), Seq::<int>::empty())
    } else {
        let st = render_state(s.drop_last());
        let prev = if s.len() >= 2 {
            Some(s[s.len() - 2])
        } else {
            None::<Item>
        };
        render_step(st.0, st.1, prev, s.last())
    }
}

/// A trace the renderer accepts: well nested, and every argument, marker
/// and finish event belongs to some open call.
pub open spec fn renderable(s: Seq<Item>) -> bool {
    &&& well_nested(s)
    &&& forall|j: int|
        0 <= j < s.len() && !is_start(s[j]) ==> depth_of(#[trigger] s.subrange(0, j)) > 0
}

fn item_is_start(i: &Item) -> (r: bool)
    ensures
        r == is_start(*i),
{
    match i {
        Item::Start(_) => true,
        _ => false,
    }
}

fn make_indent(d: usize) -> (s: String)
    ensures
        s@ == spaces(2 * d),
{
    let mut s = String::new();
    let mut k: usize = 0;
    while k < d
        invariant
            k <= d,
            s@ =~= spaces(2 * (k as int)),
        decreases d - k,
    {
        proof {
            reveal_strlit("  ");
            lemma_spaces(2 * (k as int));
            lemma_spaces(2 * ((k + 1) as int));
        }
        s.append("  ");
        proof {
            assert(s@ =~= spaces(2 * ((k + 1) as int)));
        }
        k += 1;
    }
    s
}

fn append_at(lines: &mut Vec<String>, idx: usize, tail: &str)
    requires
        idx < old(lines)@.len(),
    ensures
        final(lines)@.len() == old(lines)@.len(),
        final(lines)@[idx as int]@ == old(lines)@[idx as int]@ + tail@,
        forall|k: int| 0 <= k < old(lines)@.len() && k != idx ==> final(lines)@[k] == old(
            lines,
        )@[k],
{
    let mut line = lines.remove(idx);
    line.append(tail);
    let ghost l2 = line;
    lines.insert(idx, line);
    proof {
        assert forall|k: int| 0 <= k < old(lines)@.len() && k != idx implies lines@[k] == old(
            lines,
        )@[k] by {
            assert(lines@ == old(lines)@.remove(idx as int).insert(idx as int, l2));
        }
    }
}

/// Render a recorded trace as indented text: one line per call, `name(`
/// then its comma-separated arguments, then ` = ` and the call's result,
/// with nested children indented one level deeper than their parent. The
/// result is character for character what [`render_state`] defines.
pub fn render_trace(items: &Vec<Item>) -> (lines: Vec<String>)
    requires
        renderable(items@),
    ensures
        lines@.len() == count_starts(items@),
        views_of(lines@) == render_state(items@).0,
{
    let ghost whole = items@;
    let mut lines: Vec<String> = Vec::new();
    let mut callstack: Vec<usize> = Vec::new();
    let mut depth: usize = 0;
    let mut j: usize = 0;
    proof {
        assert(whole.subrange(0, 0) =~= Seq::<Item>::empty());
        assert(views_of(lines@) =~= render_state(whole.subrange(0, 0)).0);
        assert(callstack@.map_values(|u: usize| u as int) =~= render_state(
            whole.subrange(0, 0),
        ).1);
    }
    while j < items.len()
        invariant
            renderable(whole),
            items@ == whole,
            j <= whole.len(),
            depth == depth_of(whole.subrange(0, j as int)),
            callstack@.len() == depth,
            forall|k: int| 0 <= k < callstack@.len() ==> callstack@[k] < lines@.len(),
            lines@.len() == count_starts(whole.subrange(0, j as int)),
            views_of(lines@) == render_state(whole.subrange(0, j as int)).0,
            callstack@.map_values(|u: usize| u as int) == render_state(
                whole.subrange(0, j as int),
            ).1,
        decreases whole.len() - j,
    {
        let ghost pre = whole.subrange(0, j as int);
        let ghost post = whole.subrange(0, j as int + 1);
        let ghost prev = if j == 0 {
            None::<Item>
        } else {
            Some(whole[j as int - 1])
        };
        proof {
            assert(post.drop_last() =~= pre);
            assert(post.last() == whole[j as int]);
            if j >= 1 {
                assert(post[post.len() - 2] == whole[j as int - 1]);
            }
            assert(render_state(post) == render_step(
                render_state(pre).0,
                render_state(pre).1,
                prev,
                whole[j as int],
            ));
            if !is_start(whole[j as int]) {
                assert(depth_of(pre) > 0);
                if j == 0 {
                    assert(pre =~= Seq::<Item>::empty());
                }
            }
            lemma_depth_bounds(pre);
        }
        let it = &items[j];
        match it {
            Item::Start(name) => {
                let mut line = make_indent(depth);
                line.append(name.as_str());
                proof {
                    reveal_strlit("(");
                }
                line.append("(");
                lines.push(line);
                callstack.push(lines.len() - 1);
                depth = depth + 1;
                proof {
                    assert(line@ =~= spaces(2 * (depth - 1)) + name@ + seq!['(']);
                    assert(views_of(lines@) =~~= render_state(post).0);
                    assert(callstack@.map_values(|u: usize| u as int) =~= render_state(post).1);
                }
            },
            Item::ArgUsize(name, val) => {
                let idx = callstack[callstack.len() - 1];
                let first = item_is_start(&items[j - 1]);
                let mut tail = String::new();
                if !first {
                    proof {
                        reveal_strlit(", ");
                    }
                    tail.append(", ");
                }
                tail.append(name.as_str());
                proof {
                    reveal_strlit(" = ");
                }
                tail.append(" = ");
                let vs = usize_to_string(*val);
                tail.append(vs.as_str());
                append_at(&mut lines, idx, tail.as_str());
                proof {
                    assert(tail@ =~= arg_sep(prev) + name@ + seq![' ', '=', ' '] + dec_str(
                        *val as int,
                    ));
                    assert(views_of(lines@) =~~= render_state(post).0);
                }
            },
            Item::ArgNum(name, text) => {
                let idx = callstack[callstack.len() - 1];
                let first = item_is_start(&items[j - 1]);
                let mut tail = String::new();
                if !first {
                    proof {
                        reveal_strlit(", ");
                    }
                    tail.append(", ");
                }
                tail.append(name.as_str());
                proof {
                    reveal_strlit(" = ");
                }
                tail.append(" = ");
                tail.append(text.as_str());
                append_at(&mut lines, idx, tail.as_str());
                proof {
                    assert(tail@ =~= arg_sep(prev) + name@ + seq![' ', '=', ' '] + text@);
                    assert(views_of(lines@) =~~= render_state(post).0);
                }
            },
            Item::FinishArg => {
                let idx = callstack[callstack.len() - 1];
                proof {
                    reveal_strlit(")");
                }
                append_at(&mut lines, idx, ")");
                proof {
                    assert(")"@ =~= seq![')']);
                    assert(views_of(lines@) =~~= render_state(post).0);
                }
            },
            Item::FinishRgb(r, g, b) => {
                let idx = callstack[callstack.len() - 1];
                proof {
                    reveal_strlit(" = (");
                    reveal_strlit(", ");
                    reveal_strlit(")");
                }
                let mut tail = String::from_str(" = (");
                let rs = usize_to_string(*r as usize);
                tail.append(rs.as_str());
                tail.append(", ");
                let gs = usize_to_string(*g as usize);
                tail.append(gs.as_str());
                tail.append(", ");
                let bs = usize_to_string(*b as usize);
                tail.append(bs.as_str());
                tail.append(")");
                append_at(&mut lines, idx, tail.as_str());
                let _popped = callstack.pop();
                depth = depth - 1;
                proof {
                    assert(tail@ =~= seq![' ', '=', ' ', '('] + dec_str(*r as int) + seq![
                        ',',
                        ' ',
                    ] + dec_str(*g as int) + seq![',', ' '] + dec_str(*b as int) + seq![')']);
                    assert(views_of(lines@) =~~= render_state(post).0);
                    assert(callstack@.map_values(|u: usize| u as int) =~= render_state(post).1);
                }
            },
            Item::FinishNum(text) => {
                let idx = callstack[callstack.len() - 1];
                proof {
                    reveal_strlit(" = ");
                }
                let mut tail = String::from_str(" = ");
                tail.append(text.as_str());
                append_at(&mut lines, idx, tail.as_str());
                let _popped = callstack.pop();
                depth = depth - 1;
                proof {
                    assert(tail@ =~= seq![' ', '=', ' '] + text@);
                    assert(views_of(lines@) =~~= render_state(post).0);
                    assert(callstack@.map_values(|u: usize| u as int) =~= render_state(post).1);
                }
            },
        }
        j += 1;
    }
    proof {
        assert(whole.subrange(0, whole.len() as int) =~= whole);
    }
    lines
}

} // verus!
