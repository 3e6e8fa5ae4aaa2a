use vstd::prelude::*;
use crate::event::InputEvent;

verus! {

/// The outcome of one filter step: the new drag state and the event, if it survives.
pub open spec fn filter_step(dragging: bool, e: InputEvent) -> (bool, Option<InputEvent>) {
    if e.is_press() {
        (true, Some(e))
    } else if e.is_release() {
        (false, Some(e))
    } else if dragging {
        (true, None)
    } else {
        (false, Some(e))
    }
}

/// The drag state after filtering a whole sequence.
pub open spec fn filter_state(dragging: bool, es: Seq<InputEvent>) -> bool
    decreases es.len(),
{
    if es.len() == 0 {
        dragging
    } else {
        filter_state(filter_step(dragging, es[0]).0, es.drop_first())
    }
}

/// The events that survive filtering a whole sequence, in their order.
pub open spec fn filter_output(dragging: bool, es: Seq<InputEvent>) -> Seq<InputEvent>
    decreases es.len(),
{
    if es.len() == 0 {
        Seq::empty()
    } else {
        let (d, o) = filter_step(dragging, es[0]);
        let rest = filter_output(d, es.drop_first());
        match o {
            Some(e) => seq![e] + rest,
            None => rest,
        }
    }
}

/// An optional event as a sequence of zero or one events.
pub open spec fn opt_seq(o: Option<InputEvent>) -> Seq<InputEvent> {
    match o {
        Some(e) => seq![e],
        None => Seq::empty(),
    }
}

/// Filtering a sequence extended by one event extends the output by what
/// the last step lets through.
pub proof fn lemma_filter_push(dragging: bool, es: Seq<InputEvent>, e: InputEvent)
    ensures
        filter_output(dragging, es.push(e)) == filter_output(dragging, es) + opt_seq(
            filter_step(filter_state(dragging, es), e).1,
        ),
        filter_state(dragging, es.push(e)) == filter_step(filter_state(dragging, es), e).0,
    decreases es.len(),
{
    if es.len() == 0 {
        assert(es.push(e).drop_first() =~= Seq::<InputEvent>::empty());
        assert(es.push(e)[0] == e);
        let (d1, o1) = filter_step(dragging, e);
        assert(filter_output(d1, Seq::<InputEvent>::empty()) == Seq::<InputEvent>::empty());
        assert(filter_state(d1, Seq::<InputEvent>::empty()) == d1);
        assert(filter_state(dragging, es) == dragging);
        assert(filter_output(dragging, es) == Seq::<InputEvent>::empty());
        assert(Seq::<InputEvent>::empty() + opt_seq(filter_step(dragging, e).1) =~= opt_seq(filter_step(dragging, e).1));
        assert(opt_seq(filter_step(dragging, e).1) + Seq::<InputEvent>::empty() =~= opt_seq(filter_step(dragging, e).1));
    } else {
        assert(es.push(e).drop_first() =~= es.drop_first().push(e));
        assert(es.push(e)[0] == es[0]);
        let (d, o) = filter_step(dragging, es[0]);
        lemma_filter_push(d, es.drop_first(), e);
        let tail = opt_seq(filter_step(filter_state(d, es.drop_first()), e).1);
        assert(filter_state(dragging, es) == filter_state(d, es.drop_first()));
        assert(filter_state(dragging, es.push(e)) == filter_state(d, es.push(e).drop_first()));
        match o {
            Some(x) => {
                assert(seq![x] + (filter_output(d, es.drop_first()) + tail) =~= (seq![x] + filter_output(d, es.drop_first())) + tail);
            },
            None => {},
        }
    }
}

/// Suppresses pointer noise between a press and the matching release.
pub struct InputFilter {
    pub dragging: bool,
}

impl InputFilter {
    /// A filter outside any drag gesture.
    pub fn new() -> (r: InputFilter)
        ensures
            !r.dragging,
    {
        InputFilter { dragging: false }
    }

    /// Filters one event: presses and releases pass and set the drag state,
    /// anything else passes only outside a drag.
    pub fn filter(&mut self, e: InputEvent) -> (r: Option<InputEvent>)
        ensures
            (final(self).dragging, r) == filter_step(old(self).dragging, e),
    {
        if e.is_gesture_edge() {
            match e {
                InputEvent::MousePress(_, _, _) => {
                    self.dragging = true;
                },
                _ => {
                    self.dragging = false;
                },
            }
            Some(e)
        } else if self.dragging {
            None
        } else {
            Some(e)
        }
    }

    /// Filters a whole sequence of events, in order.
    pub fn filter_all(&mut self, es: Vec<InputEvent>) -> (r: Vec<InputEvent>)
        ensures
            r@ == filter_output(old(self).dragging, es@),
            final(self).dragging == filter_state(old(self).dragging, es@),
    {
        let ghost d0 = self.dragging;
        let ghost all = es@;
        let mut rest = es;
        let mut out: Vec<InputEvent> = Vec::new();
        while rest.len() > 0
            invariant
                filter_output(d0, all) == out@ + filter_output(self.dragging, rest@),
                filter_state(d0, all) == filter_state(self.dragging, rest@),
            decreases rest.len(),
        {
            let ghost before = rest@;
            let ghost d = self.dragging;
            let e = rest.remove(0);
            assert(before.drop_first() =~= rest@);
            let o = self.filter(e);
            match o {
                Some(x) => {
                    out.push(x);
                    assert(filter_output(d, before) == seq![x] + filter_output(self.dragging, rest@));
                },
                None => {},
            }
        }
        assert(out@ + filter_output(self.dragging, rest@) =~= out@);
        out
    }
}

/// An input with no press or release passes through the filter unchanged
/// outside a drag, and never changes the drag state.
pub proof fn lemma_filter_without_gestures(dragging: bool, es: Seq<InputEvent>)
    requires
        forall|i: int| 0 <= i < es.len() ==> !(#[trigger] es[i]).is_press() && !es[i].is_release(),
    ensures
        filter_state(dragging, es) == dragging,
        !dragging ==> filter_output(dragging, es) == es,
    decreases es.len(),
{
    if es.len() > 0 {
        let rest = es.drop_first();
        assert forall|i: int| 0 <= i < rest.len() implies !(#[trigger] rest[i]).is_press() && !rest[i].is_release() by {
            assert(rest[i] == es[i + 1]);
        }
        assert(!es[0].is_press() && !es[0].is_release());
        lemma_filter_without_gestures(dragging, rest);
        if !dragging {
            assert(es =~= seq![es[0]] + rest);
        }
    }
}

/// Filtering two sequences one after the other is filtering the second
/// from the state the first left.
pub proof fn lemma_filter_concat(dragging: bool, a: Seq<InputEvent>, b: Seq<InputEvent>)
    ensures
        filter_output(dragging, a + b) == filter_output(dragging, a) + filter_output(filter_state(dragging, a), b),
        filter_state(dragging, a + b) == filter_state(filter_state(dragging, a), b),
    decreases a.len(),
{
    if a.len() == 0 {
        assert(a + b =~= b);
        assert(Seq::<InputEvent>::empty() + filter_output(dragging, b) =~= filter_output(dragging, b));
    } else {
        let (d, o) = filter_step(dragging, a[0]);
        assert((a + b)[0] == a[0]);
        assert((a + b).drop_first() =~= a.drop_first() + b);
        lemma_filter_concat(d, a.drop_first(), b);
        match o {
            Some(x) => {
                assert(seq![x] + (filter_output(d, a.drop_first()) + filter_output(filter_state(d, a.drop_first()), b))
                    =~= (seq![x] + filter_output(d, a.drop_first())) + filter_output(filter_state(d, a.drop_first()), b));
            },
            None => {},
        }
    }
}

/// Outside a drag, a prefix with no press or release passes unchanged and
/// leaves the filter outside a drag for what follows.
pub proof fn lemma_gesture_free_prefix(s: Seq<InputEvent>, c: Seq<InputEvent>)
    requires
        forall|i: int| 0 <= i < s.len() ==> !(#[trigger] s[i]).is_press() && !s[i].is_release(),
    ensures
        filter_output(false, s + c) == s + filter_output(false, c),
        filter_state(false, s + c) == filter_state(false, c),
{
    lemma_filter_without_gestures(false, s);
    lemma_filter_concat(false, s, c);
}

} // verus!
