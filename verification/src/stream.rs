//! The events of a streamed model response.

use vstd::prelude::*;

verus! {

/// One event of a streamed response.
#[derive(Debug, PartialEq)]
pub enum StreamEvent {
    /// A piece of text.
    TextDelta(String),
    /// A tool call begins.
    ToolCallStart { id: String, name: String },
    /// A piece of the arguments of a tool call.
    ToolCallDelta { id: String, arguments_delta: String },
    /// A tool call is complete.
    ToolCallEnd { id: String },
    /// The response is complete.
    Done,
}

/// A stream event, as contracts speak of it.
pub enum EventView {
    TextDelta(Seq<char>),
    ToolCallStart { id: Seq<char>, name: Seq<char> },
    ToolCallDelta { id: Seq<char>, arguments_delta: Seq<char> },
    ToolCallEnd { id: Seq<char> },
    Done,
}

impl View for StreamEvent {
    type V = EventView;

    open spec fn view(&self) -> EventView {
        match *self {
            StreamEvent::TextDelta(t) => EventView::TextDelta(t@),
            StreamEvent::ToolCallStart { id, name } => EventView::ToolCallStart {
                id: id@,
                name: name@,
            },
            StreamEvent::ToolCallDelta { id, arguments_delta } => EventView::ToolCallDelta {
                id: id@,
                arguments_delta: arguments_delta@,
            },
            StreamEvent::ToolCallEnd { id } => EventView::ToolCallEnd { id: id@ },
            StreamEvent::Done => EventView::Done,
        }
    }
}

/// The models of a list of events.
pub open spec fn event_views(s: Seq<StreamEvent>) -> Seq<EventView> {
    Seq::new(s.len(), |i: int| s[i]@)
}

// ---------------------------------------------------------------------
// What events say as a whole
// ---------------------------------------------------------------------

/// All text of a response, in order.
pub open spec fn spoken(events: Seq<EventView>) -> Seq<char>
    decreases events.len(),
{
    if events.len() == 0 {
        Seq::empty()
    } else {
        spoken(events.drop_last()) + match events.last() {
            EventView::TextDelta(t) => t,
            _ => Seq::empty(),
        }
    }
}

/// All arguments of the tool calls with an identifier, in order.
pub open spec fn arguments_told(events: Seq<EventView>, of: Seq<char>) -> Seq<char>
    decreases events.len(),
{
    if events.len() == 0 {
        Seq::empty()
    } else {
        arguments_told(events.drop_last(), of) + match events.last() {
            EventView::ToolCallDelta { id, arguments_delta } => if id == of {
                arguments_delta
            } else {
                Seq::empty()
            },
            _ => Seq::empty(),
        }
    }
}

/// The names under which tool calls with an identifier begin, in order.
pub open spec fn names_told(events: Seq<EventView>, of: Seq<char>) -> Seq<Seq<char>>
    decreases events.len(),
{
    if events.len() == 0 {
        Seq::empty()
    } else {
        names_told(events.drop_last(), of) + match events.last() {
            EventView::ToolCallStart { id, name } => if id == of {
                seq![name]
            } else {
                Seq::empty()
            },
            _ => Seq::empty(),
        }
    }
}

/// How often tool calls with an identifier end.
pub open spec fn ends_told(events: Seq<EventView>, of: Seq<char>) -> nat
    decreases events.len(),
{
    if events.len() == 0 {
        0
    } else {
        ends_told(events.drop_last(), of) + match events.last() {
            EventView::ToolCallEnd { id } => if id == of {
                1nat
            } else {
                0
            },
            _ => 0,
        }
    }
}

/// How often a response is complete.
pub open spec fn dones_told(events: Seq<EventView>) -> nat
    decreases events.len(),
{
    if events.len() == 0 {
        0
    } else {
        dones_told(events.drop_last()) + if events.last() is Done {
            1nat
        } else {
            0
        }
    }
}

/// What two runs of events say together is what they say one after the other.
pub proof fn events_add_up(a: Seq<EventView>, b: Seq<EventView>, id: Seq<char>)
    ensures
        spoken(a + b) == spoken(a) + spoken(b),
        arguments_told(a + b, id) == arguments_told(a, id) + arguments_told(b, id),
        names_told(a + b, id) == names_told(a, id) + names_told(b, id),
        ends_told(a + b, id) == ends_told(a, id) + ends_told(b, id),
        dones_told(a + b) == dones_told(a) + dones_told(b),
    decreases b.len(),
{
    if b.len() == 0 {
        assert(a + b =~= a);
        assert(spoken(a) + spoken(b) =~= spoken(a));
        assert(arguments_told(a, id) + arguments_told(b, id) =~= arguments_told(a, id));
        assert(names_told(a, id) + names_told(b, id) =~= names_told(a, id));
    } else {
        let init = b.drop_last();
        events_add_up(a, init, id);
        assert((a + b).drop_last() =~= a + init);
        assert((a + b).last() == b.last());
        let last = b.last();
        let t = match last {
            EventView::TextDelta(t) => t,
            _ => Seq::empty(),
        };
        assert(spoken(a) + spoken(init) + t =~= spoken(a) + (spoken(init) + t));
        let g = match last {
            EventView::ToolCallDelta { id: i, arguments_delta } => if i == id {
                arguments_delta
            } else {
                Seq::empty()
            },
            _ => Seq::empty(),
        };
        assert(arguments_told(a, id) + arguments_told(init, id) + g =~= arguments_told(a, id) + (
        arguments_told(init, id) + g));
        let n = match last {
            EventView::ToolCallStart { id: i, name } => if i == id {
                seq![name]
            } else {
                Seq::empty()
            },
            _ => Seq::empty(),
        };
        assert(names_told(a, id) + names_told(init, id) + n =~= names_told(a, id) + (names_told(
            init,
            id,
        ) + n));
    }
}

/// What a single event says.
pub proof fn single_events(e: EventView, id: Seq<char>)
    ensures
        spoken(seq![e]) == match e {
            EventView::TextDelta(t) => t,
            _ => Seq::empty(),
        },
        arguments_told(seq![e], id) == match e {
            EventView::ToolCallDelta { id: i, arguments_delta } => if i == id {
                arguments_delta
            } else {
                Seq::empty()
            },
            _ => Seq::empty(),
        },
        names_told(seq![e], id) == match e {
            EventView::ToolCallStart { id: i, name } => if i == id {
                seq![name]
            } else {
                Seq::empty()
            },
            _ => Seq::empty(),
        },
        ends_told(seq![e], id) == match e {
            EventView::ToolCallEnd { id: i } => if i == id {
                1nat
            } else {
                0
            },
            _ => 0,
        },
        dones_told(seq![e]) == (if e is Done {
            1nat
        } else {
            0
        }),
{
    let s = seq![e];
    assert(s.drop_last() =~= Seq::<EventView>::empty());
    reveal_with_fuel(spoken, 2);
    reveal_with_fuel(arguments_told, 2);
    reveal_with_fuel(names_told, 2);
    reveal_with_fuel(ends_told, 2);
    reveal_with_fuel(dones_told, 2);
    assert(Seq::<char>::empty() + spoken(s) =~= spoken(s));
    assert(spoken(s) =~= match e {
        EventView::TextDelta(t) => t,
        _ => Seq::empty(),
    });
    assert(arguments_told(s, id) =~= match e {
        EventView::ToolCallDelta { id: i, arguments_delta } => if i == id {
            arguments_delta
        } else {
            Seq::empty()
        },
        _ => Seq::empty(),
    });
    assert(names_told(s, id) =~= match e {
        EventView::ToolCallStart { id: i, name } => if i == id {
            seq![name]
        } else {
            Seq::empty()
        },
        _ => Seq::empty(),
    });
}

} // verus!
