//! The server as a state machine.
//!
//! The machine decides; a driver acts. The driver reads a request from a
//! connection, resolves a path on the filesystem, reads a file and writes a
//! response, each when the machine asks for it, and reports every outcome
//! back as an event. One exchange runs from `Idle` back to `Idle`.

use vstd::prelude::*;
use crate::content::{content_type_at, content_type_for_path, ContentType};
use crate::path::{is_within, within};
use crate::request::{
    lemma_get_line,
    lemma_other_method,
    relative_of,
    request_target,
    request_text,
    strip_leading_slash,
    target_of,
    text_of,
};
use crate::bytes::ascii;
use crate::decimal::digits_of;
use crate::text::{is_solid, is_whitespace, line_of, words_of};
use crate::response::{lemma_found_wire, lemma_not_found_wire, Response, ResponseView};

verus! {

/// Where the server stands between two events.
#[derive(Clone, Copy, Debug, PartialEq, Eq, Structural)]
pub enum State {
    /// No exchange is under way: the next event is the request of a new
    /// connection.
    Idle,
    /// A request was accepted and the path it asks for is being resolved.
    Resolving,
    /// The path was found beneath the root and the file is being read; its
    /// content type is settled.
    Loading(ContentType),
}

/// What the driver reports.
#[derive(Debug, PartialEq, Eq)]
pub enum Event {
    /// The bytes that one read of a new connection returned.
    Request(Vec<u8>),
    /// The read of a new connection failed.
    RequestFailed,
    /// The canonical form of the server root and of the path asked for.
    Resolved { root: Vec<u8>, path: Vec<u8> },
    /// The path asked for has no canonical form: nothing exists there, or it
    /// cannot be reached.
    Unresolved,
    /// The content of the file.
    Loaded(Vec<u8>),
    /// The file could not be read.
    Unreadable,
}

/// What the driver is to do next.
#[derive(Debug, PartialEq, Eq)]
pub enum Action {
    /// Join this relative path onto the server root as it stands, make both
    /// canonical, and report `Resolved` or `Unresolved`.
    Resolve(String),
    /// Read the file at this path, and report `Loaded` or `Unreadable`.
    Load(Vec<u8>),
    /// Write this response and close the connection.
    Send(Response),
    /// Close the connection without writing anything.
    Close,
}

/// What an `Event` holds, as mathematical values.
pub enum EventView {
    Request(Seq<u8>),
    RequestFailed,
    Resolved { root: Seq<u8>, path: Seq<u8> },
    Unresolved,
    Loaded(Seq<u8>),
    Unreadable,
}

/// What an `Action` holds, as mathematical values.
pub enum ActionView {
    Resolve(Seq<char>),
    Load(Seq<u8>),
    Send(ResponseView),
    Close,
}

impl View for Event {
    type V = EventView;

    open spec fn view(&self) -> EventView {
        match self {
            Event::Request(bytes) => EventView::Request(bytes@),
            Event::RequestFailed => EventView::RequestFailed,
            Event::Resolved { root, path } => EventView::Resolved { root: root@, path: path@ },
            Event::Unresolved => EventView::Unresolved,
            Event::Loaded(data) => EventView::Loaded(data@),
            Event::Unreadable => EventView::Unreadable,
        }
    }
}

impl View for Action {
    type V = ActionView;

    open spec fn view(&self) -> ActionView {
        match self {
            Action::Resolve(relative) => ActionView::Resolve(relative@),
            Action::Load(path) => ActionView::Load(path@),
            Action::Send(response) => ActionView::Send(response@),
            Action::Close => ActionView::Close,
        }
    }
}

impl ActionView {
    /// The bytes that the action puts on the connection.
    pub open spec fn sent(self) -> Seq<u8> {
        match self {
            ActionView::Send(response) => response.wire(),
            _ => Seq::empty(),
        }
    }

    /// Whether the action ends the exchange.
    pub open spec fn is_final(self) -> bool {
        self is Send || self is Close
    }
}

/// The answer to the text of a request. A request that is no `GET` with a
/// path is dropped without a word. One for the bare root, `/`, is answered
/// with 404: there is no default document. Any other path is to be resolved,
/// without its leading slash.
pub open spec fn begin_of(text: Seq<char>) -> (State, ActionView) {
    match target_of(text) {
        None => (State::Idle, ActionView::Close),
        Some(target) => if relative_of(target).len() == 0 {
            (State::Idle, ActionView::Send(ResponseView::NotFound))
        } else {
            (State::Resolving, ActionView::Resolve(relative_of(target)))
        },
    }
}

/// The answer to a resolved path: the file is read where the path lies
/// within the root, and 404 is sent where it does not.
pub open spec fn locate_of(root: Seq<u8>, path: Seq<u8>) -> (State, ActionView) {
    if within(path, root) {
        (State::Loading(content_type_at(path)), ActionView::Load(path))
    } else {
        (State::Idle, ActionView::Send(ResponseView::NotFound))
    }
}

/// The next state and the action that follow `event` in `state`.
///
/// An event that the state did not ask for ends the exchange in silence.
pub open spec fn transition(state: State, event: EventView) -> (State, ActionView) {
    match (state, event) {
        (State::Idle, EventView::Request(bytes)) => begin_of(text_of(bytes)),
        (State::Resolving, EventView::Resolved { root, path }) => locate_of(root, path),
        (State::Resolving, EventView::Unresolved) => (
            State::Idle,
            ActionView::Send(ResponseView::NotFound),
        ),
        (State::Loading(content_type), EventView::Loaded(data)) => (
            State::Idle,
            ActionView::Send(ResponseView::Found { content_type, body: data }),
        ),
        (State::Loading(_), EventView::Unreadable) => (
            State::Idle,
            ActionView::Send(ResponseView::NotFound),
        ),
        _ => (State::Idle, ActionView::Close),
    }
}

/// Decides what to do with the decoded text of a request.
pub fn begin(text: &str) -> (next: (State, Action))
    ensures
        next.0 == begin_of(text@).0,
        next.1@ == begin_of(text@).1,
{
    match request_target(text) {
        None => (State::Idle, Action::Close),
        Some(target) => {
            let relative = strip_leading_slash(target.as_str());
            if relative.as_str().is_empty() {
                (State::Idle, Action::Send(Response::NotFound))
            } else {
                (State::Resolving, Action::Resolve(relative))
            }
        },
    }
}

/// Decides what to do with a path that was resolved to `path`, where the
/// server root resolved to `root`.
pub fn locate(root: &[u8], path: Vec<u8>) -> (next: (State, Action))
    ensures
        next.0 == locate_of(root@, path@).0,
        next.1@ == locate_of(root@, path@).1,
{
    if is_within(path.as_slice(), root) {
        let content_type = content_type_for_path(path.as_slice());
        (State::Loading(content_type), Action::Load(path))
    } else {
        (State::Idle, Action::Send(Response::NotFound))
    }
}

/// Takes one step: from the state and what the driver reports to the next
/// state and what the driver is to do.
pub fn step(state: State, event: Event) -> (next: (State, Action))
    ensures
        next.0 == transition(state, event@).0,
        next.1@ == transition(state, event@).1,
{
    match state {
        State::Idle => match event {
            Event::Request(bytes) => {
                let text = request_text(bytes.as_slice());
                begin(text.as_str())
            },
            _ => (State::Idle, Action::Close),
        },
        State::Resolving => match event {
            Event::Resolved { root, path } => locate(root.as_slice(), path),
            Event::Unresolved => (State::Idle, Action::Send(Response::NotFound)),
            _ => (State::Idle, Action::Close),
        },
        State::Loading(content_type) => match event {
            Event::Loaded(body) => (
                State::Idle,
                Action::Send(Response::Found { content_type, body }),
            ),
            Event::Unreadable => (State::Idle, Action::Send(Response::NotFound)),
            _ => (State::Idle, Action::Close),
        },
    }
}

/// What the machine does with a sequence of events: the state it ends in, and
/// the actions it asks for, one for each event.
pub open spec fn run(state: State, events: Seq<EventView>) -> (State, Seq<ActionView>)
    decreases events.len(),
{
    if events.len() == 0 {
        (state, Seq::empty())
    } else {
        let first = transition(state, events[0]);
        let rest = run(first.0, events.drop_first());
        (rest.0, seq![first.1] + rest.1)
    }
}

/// An action ends the exchange exactly when it leaves the machine idle:
/// after a response or a silent close the next event belongs to a new
/// connection, and while a path is resolved or a file is read it does not.
pub proof fn lemma_final_action_leaves_idle(state: State, event: EventView)
    ensures
        transition(state, event).1.is_final() <==> transition(state, event).0 == State::Idle,
        transition(state, event).1 is Resolve <==> transition(state, event).0 == State::Resolving,
        transition(state, event).1 is Load <==> transition(state, event).0 is Loading,
{
}

/// No exchange takes more than three events: whatever the driver reports,
/// the machine is idle again after the third event at the latest.
pub proof fn lemma_exchange_is_short(first: EventView, second: EventView, third: EventView)
    ensures
        ({
            let one = transition(State::Idle, first);
            let two = transition(one.0, second);
            let three = transition(two.0, third);
            one.0 == State::Idle || two.0 == State::Idle || three.0 == State::Idle
        }),
{
}

/// Running two sequences of events in a row is running the first, and then
/// the second from the state that the first ended in.
pub proof fn lemma_run_concat(state: State, first: Seq<EventView>, second: Seq<EventView>)
    ensures
        run(state, first + second).0 == run(run(state, first).0, second).0,
        run(state, first + second).1 == run(state, first).1 + run(run(state, first).0, second).1,
    decreases first.len(),
{
    if first.len() == 0 {
        assert(first + second =~= second);
        assert(run(state, first).1 + run(state, second).1 =~= run(state, second).1);
    } else {
        let next = transition(state, first[0]);
        assert((first + second).drop_first() =~= first.drop_first() + second);
        assert((first + second)[0] == first[0]);
        lemma_run_concat(next.0, first.drop_first(), second);
        let tail = run(next.0, first.drop_first());
        assert(seq![next.1] + (tail.1 + run(tail.0, second).1) =~= (seq![next.1] + tail.1) + run(
            tail.0,
            second,
        ).1);
    }
}

/// Connections do not affect each other. Once the events of one exchange
/// have left the machine idle, the events of the next are answered exactly
/// as they would be by a machine that never saw the first.
pub proof fn lemma_exchanges_are_independent(first: Seq<EventView>, second: Seq<EventView>)
    requires
        run(State::Idle, first).0 == State::Idle,
    ensures
        run(State::Idle, first + second).0 == run(State::Idle, second).0,
        run(State::Idle, first + second).1 == run(State::Idle, first).1 + run(
            State::Idle,
            second,
        ).1,
{
    lemma_run_concat(State::Idle, first, second);
}

/// A file beneath the root is served whole. When the path asked for resolves
/// to `path` within `root` and the file there holds `data`, the machine asks
/// for the file and then sends status 200 with the content type that the
/// file's name calls for, the exact count of the file's bytes, and the bytes.
pub proof fn lemma_file_is_served(root: Seq<u8>, path: Seq<u8>, data: Seq<u8>)
    requires
        within(path, root),
    ensures
        run(
            State::Resolving,
            seq![EventView::Resolved { root, path }, EventView::Loaded(data)],
        ) == (
            State::Idle,
            seq![
                ActionView::Load(path),
                ActionView::Send(
                    ResponseView::Found { content_type: content_type_at(path), body: data },
                ),
            ],
        ),
        (ResponseView::Found { content_type: content_type_at(path), body: data }).code() == 200,
        (ResponseView::Found { content_type: content_type_at(path), body: data }).wire() == ascii(
            "HTTP/1.1 200 OK\r\nContent-Type: "@ + content_type_at(path).name()
                + "\r\nContent-Length: "@ + digits_of(data.len())
                + "\r\nConnection: close\r\n\r\n"@,
        ) + data,
{
    let events = seq![EventView::Resolved { root, path }, EventView::Loaded(data)];
    let content_type = content_type_at(path);
    let reply = ResponseView::Found { content_type, body: data };
    reveal_with_fuel(run, 3);
    assert(events.drop_first() =~= seq![EventView::Loaded(data)]);
    assert(events.drop_first().drop_first() =~= Seq::<EventView>::empty());
    assert(run(State::Resolving, events).1 =~= seq![
        ActionView::Load(path),
        ActionView::Send(reply),
    ]);
    lemma_found_wire(content_type, data);
}

/// A path outside the root is answered exactly as a path that does not
/// exist: the same state follows, and the same bytes are sent, those of the
/// one 404 response.
pub proof fn lemma_outside_is_like_missing(root: Seq<u8>, path: Seq<u8>)
    requires
        !within(path, root),
    ensures
        transition(State::Resolving, EventView::Resolved { root, path }) == transition(
            State::Resolving,
            EventView::Unresolved,
        ),
        transition(State::Resolving, EventView::Resolved { root, path }).1.sent() == ascii(
            "HTTP/1.1 404 Not Found\r\nContent-Type: text/plain\r\nContent-Length: 13\r\nConnection: close\r\n\r\n404 not found"@,
        ),
{
    lemma_not_found_wire();
}

/// Every failure that a client gets to see looks the same. A request for the
/// bare root, a path that cannot be resolved, a path outside the root and a
/// file that cannot be read all end the exchange with the one 404 response.
pub proof fn lemma_failures_are_alike(
    text: Seq<char>,
    root: Seq<u8>,
    path: Seq<u8>,
    content_type: ContentType,
)
    requires
        target_of(text) is Some,
        relative_of(target_of(text)->0).len() == 0,
        !within(path, root),
    ensures
        begin_of(text) == (State::Idle, ActionView::Send(ResponseView::NotFound)),
        transition(State::Resolving, EventView::Unresolved) == (
            State::Idle,
            ActionView::Send(ResponseView::NotFound),
        ),
        transition(State::Resolving, EventView::Resolved { root, path }) == (
            State::Idle,
            ActionView::Send(ResponseView::NotFound),
        ),
        transition(State::Loading(content_type), EventView::Unreadable) == (
            State::Idle,
            ActionView::Send(ResponseView::NotFound),
        ),
{
}

/// A request that is no `GET` with a path gets no answer: not one byte is
/// sent, and the connection is closed.
pub proof fn lemma_dropped_request_sends_nothing(bytes: Seq<u8>)
    requires
        target_of(text_of(bytes)) is None,
    ensures
        transition(State::Idle, EventView::Request(bytes)) == (State::Idle, ActionView::Close),
        transition(State::Idle, EventView::Request(bytes)).1.sent() == Seq::<u8>::empty(),
{
}

/// A failed read of the connection gets no answer either.
pub proof fn lemma_failed_read_sends_nothing()
    ensures
        transition(State::Idle, EventView::RequestFailed) == (State::Idle, ActionView::Close),
        transition(State::Idle, EventView::RequestFailed).1.sent() == Seq::<u8>::empty(),
{
}

/// A request for the bare root is answered with 404 at once, before the
/// filesystem is asked anything, and so whatever the filesystem holds.
pub proof fn lemma_bare_root_is_not_found(rest: Seq<char>)
    ensures
        begin_of("GET / HTTP/1.1\r\n"@ + rest) == (
            State::Idle,
            ActionView::Send(ResponseView::NotFound),
        ),
{
    reveal_strlit("GET / HTTP/1.1\r\n");
    reveal_strlit("GET ");
    reveal_strlit(" HTTP/1.1\r\n");
    let path = seq!['/'];
    assert("GET / HTTP/1.1\r\n"@ + rest =~= "GET "@ + path + " HTTP/1.1\r\n"@ + rest);
    lemma_get_line(path, rest);
    assert(relative_of(path) =~= Seq::<char>::empty());
}

/// A request for `/` followed by a relative path asks the driver to resolve
/// exactly that relative path.
pub proof fn lemma_get_is_resolved(relative: Seq<char>, rest: Seq<char>)
    requires
        relative.len() > 0,
        is_solid(relative),
    ensures
        begin_of("GET /"@ + relative + " HTTP/1.1\r\n"@ + rest) == (
            State::Resolving,
            ActionView::Resolve(relative),
        ),
{
    reveal_strlit("GET /");
    reveal_strlit("GET ");
    let path = seq!['/'] + relative;
    assert("GET /"@ + relative + " HTTP/1.1\r\n"@ + rest =~= "GET "@ + path + " HTTP/1.1\r\n"@
        + rest);
    assert forall|i: int| 0 <= i < path.len() implies !is_whitespace(#[trigger] path[i]) by {
        if i > 0 {
            assert(path[i] == relative[i - 1]);
        }
    }
    lemma_get_line(path, rest);
    assert(relative_of(path) =~= relative);
}

/// A request with another method than `GET` is dropped in silence.
pub proof fn lemma_other_method_is_dropped(method: Seq<char>, path: Seq<char>, rest: Seq<char>)
    requires
        method.len() > 0,
        is_solid(method),
        method != "GET"@,
        path.len() > 0,
        is_solid(path),
    ensures
        begin_of(method + seq![' '] + path + " HTTP/1.1\r\n"@ + rest) == (
            State::Idle,
            ActionView::Close,
        ),
        begin_of(method + seq![' '] + path + " HTTP/1.1\r\n"@ + rest).1.sent() == Seq::<
            u8,
        >::empty(),
{
    lemma_other_method(method, path, rest);
}

/// A request whose first line has fewer than two words is dropped in
/// silence.
pub proof fn lemma_short_line_is_dropped(text: Seq<char>)
    requires
        line_of(text) matches Some(line) ==> words_of(line).len() < 2,
    ensures
        begin_of(text) == (State::Idle, ActionView::Close),
        begin_of(text).1.sent() == Seq::<u8>::empty(),
{
}

} // verus!
