//! The integration server, which Dredd talks to: it starts the hook files as
//! hook servers, one port each, and relays every message of Dredd through all of
//! them in the order in which they were started.

use vstd::prelude::*;
use crate::codec::frame;

verus! {

broadcast use vstd::string::group_string_axioms;

/// The port on which the integration server listens for Dredd.
pub const INTEGRATION_PORT: u16 = 61321;

/// The port that the first hook file is given.
pub const FIRST_HOOK_PORT: usize = 61322;

/// Server that handles the integration between Dredd and the individual hook servers.
///
/// `C` is the handle of a started hook file.
#[derive(Debug)]
pub struct IntegrationServer<C> {
    next_port: usize,
    runners: Vec<(usize, C)>,
}

/// The state of an integration server: the port the next hook file gets, and
/// the hook files started so far with their ports, in starting order.
pub struct IntegrationView<C> {
    pub next_port: usize,
    pub runners: Seq<(usize, C)>,
}

impl<C> View for IntegrationServer<C> {
    type V = IntegrationView<C>;

    closed spec fn view(&self) -> IntegrationView<C> {
        IntegrationView { next_port: self.next_port, runners: self.runners@ }
    }
}

/// Every hook file has a port of its own: ports rise in starting order, and the
/// next port is above all of them.
pub open spec fn ports_distinct<C>(v: IntegrationView<C>) -> bool {
    &&& forall|i: int, j: int| 0 <= i < j < v.runners.len() ==> v.runners[i].0 < v.runners[j].0
    &&& forall|i: int| 0 <= i < v.runners.len() ==> v.runners[i].0 < v.next_port
}

/// The hook files have the ports 61322, 61323, … in starting order, and the next
/// one gets the port after the last.
pub open spec fn ports_from_first<C>(v: IntegrationView<C>) -> bool {
    &&& v.next_port == FIRST_HOOK_PORT + v.runners.len()
    &&& forall|i: int| 0 <= i < v.runners.len() ==> #[trigger] v.runners[i].0 == FIRST_HOOK_PORT + i
}

/// On a server that hands out ports from the first one on, every hook file has
/// a port of its own, and none has the port of the integration server.
pub proof fn law_hook_ports<C>(v: IntegrationView<C>)
    requires
        ports_from_first(v),
    ensures
        ports_distinct(v),
        forall|i: int| 0 <= i < v.runners.len() ==> #[trigger] v.runners[i].0 != INTEGRATION_PORT,
{
    assert forall|i: int, j: int| 0 <= i < j < v.runners.len() implies v.runners[i].0 < v.runners[j].0 by {
        assert(v.runners[i].0 == FIRST_HOOK_PORT + i);
        assert(v.runners[j].0 == FIRST_HOOK_PORT + j);
    }
    assert forall|i: int| 0 <= i < v.runners.len() implies v.runners[i].0 < v.next_port by {
        assert(v.runners[i].0 == FIRST_HOOK_PORT + i);
    }
}

/// The ports of the hook files, in starting order.
pub open spec fn runner_ports<C>(v: IntegrationView<C>) -> Seq<usize> {
    v.runners.map_values(|r: (usize, C)| r.0)
}

impl<C> IntegrationServer<C> {
    /// Create a new instance.
    pub fn new() -> (r: Self)
        ensures
            r@.next_port == FIRST_HOOK_PORT,
            r@.runners == Seq::<(usize, C)>::empty(),
            ports_distinct(r@),
            ports_from_first(r@),
    {
        IntegrationServer { next_port: FIRST_HOOK_PORT, runners: Vec::new() }
    }

    /// The port that the next hook file started gets.
    pub fn next_port(&self) -> (p: usize)
        ensures
            p == self@.next_port,
    {
        self.next_port
    }

    /// Records a hook file started with the port [`Self::next_port`] gave; the
    /// next one gets the port after it.
    pub fn add_runner(&mut self, process: C)
        requires
            old(self)@.next_port < usize::MAX,
        ensures
            final(self)@.runners == old(self)@.runners.push((old(self)@.next_port, process)),
            final(self)@.next_port == old(self)@.next_port + 1,
            ports_distinct(old(self)@) ==> ports_distinct(final(self)@),
            ports_from_first(old(self)@) ==> ports_from_first(final(self)@),
    {
        let ghost pre = self@;
        self.runners.push((self.next_port, process));
        self.next_port = self.next_port + 1;
        proof {
            if ports_distinct(pre) {
                assert forall|i: int, j: int| 0 <= i < j < self@.runners.len() implies self@.runners[i].0 < self@.runners[j].0 by {
                    assert(self@.runners[i] == pre.runners.push((pre.next_port, process))[i]);
                }
            }
        }
    }

    /// The ports of the hook files, in starting order.
    pub fn ports(&self) -> (r: Vec<usize>)
        ensures
            r@ == runner_ports(self@),
    {
        let mut r: Vec<usize> = Vec::new();
        let mut i: usize = 0;
        while i < self.runners.len()
            invariant
                i <= self.runners@.len(),
                r@ == runner_ports(self@).take(i as int),
            decreases self.runners@.len() - i,
        {
            r.push(self.runners[i].0);
            proof {
                assert(runner_ports(self@).take(i + 1) =~= runner_ports(self@).take(i as int).push(self.runners@[i as int].0));
            }
            i += 1;
        }
        assert(runner_ports(self@).take(i as int) =~= runner_ports(self@));
        r
    }

    /// The hook files with their ports, in starting order.
    pub fn into_runners(self) -> (r: Vec<(usize, C)>)
        ensures
            r@ == self@.runners,
    {
        self.runners
    }

    /// Starts relaying `request` through the hook files.
    pub fn relay(&self, request: String) -> (r: Relay)
        ensures
            r@.ports == runner_ports(self@),
            r@.position == 0,
            r@.message == request@,
            r@.request == request@,
            r@.answers == Seq::<Seq<char>>::empty(),
            relay_consistent(r@),
    {
        Relay { ports: self.ports(), position: 0, message: request, request: Ghost(request@), answers: Ghost(Seq::empty()) }
    }
}

impl<C> Default for IntegrationServer<C> {
    /// A server that has started no hook files and would give the next one port 0.
    fn default() -> (r: Self)
        ensures
            r@.next_port == 0,
            r@.runners == Seq::<(usize, C)>::empty(),
    {
        IntegrationServer { next_port: 0, runners: Vec::new() }
    }
}

/// A message on its way through the hook files: each gets what the one before
/// answered, and the last answer goes back to Dredd.
pub struct Relay {
    ports: Vec<usize>,
    position: usize,
    message: String,
    request: Ghost<Seq<char>>,
    answers: Ghost<Seq<Seq<char>>>,
}

/// Where a relay stands: the ports to go through, how many have answered, and
/// the message as it stands.
pub struct RelayView {
    pub ports: Seq<usize>,
    pub position: nat,
    pub message: Seq<char>,
    /// The message from Dredd.
    pub request: Seq<char>,
    /// The lines that the hook files answered, in order.
    pub answers: Seq<Seq<char>>,
}

/// What the next hook file gets after the hook files answered `answers`: the
/// request when none has answered yet, else the last answer without its line end.
pub open spec fn relayed(request: Seq<char>, answers: Seq<Seq<char>>) -> Seq<char> {
    if answers.len() == 0 {
        request
    } else {
        without_last(answers.last())
    }
}

/// The message of a relay is what its answers so far make of the request.
pub open spec fn relay_consistent(v: RelayView) -> bool {
    &&& v.position == v.answers.len()
    &&& v.message == relayed(v.request, v.answers)
}

/// The lines in which hook files answer with `outputs`: each output and a line feed.
pub open spec fn answer_lines(outputs: Seq<Seq<char>>) -> Seq<Seq<char>> {
    outputs.map_values(|o: Seq<char>| o.push('\n'))
}

/// The integration server chains the hook files: when each answers with a line
/// holding its output, the first gets Dredd's request, each later one gets the
/// output of the one before, and Dredd gets the last output (its own request when
/// there is no hook file).
pub proof fn law_relay_chains(request: Seq<char>, outputs: Seq<Seq<char>>)
    ensures
        forall|i: int|
            0 < i <= outputs.len() ==> #[trigger] relayed(
                request,
                answer_lines(outputs).take(i),
            ) == outputs[i - 1],
        relayed(request, answer_lines(outputs).take(0)) == request,
        relayed(request, answer_lines(outputs)) == if outputs.len() == 0 {
            request
        } else {
            outputs.last()
        },
{
    let answers = answer_lines(outputs);
    assert forall|i: int| 0 < i <= outputs.len() implies #[trigger] relayed(request, answers.take(i)) == outputs[i - 1] by {
        assert(answers.take(i).last() == outputs[i - 1].push('\n'));
        assert(outputs[i - 1].push('\n').drop_last() =~= outputs[i - 1]);
    }
    assert(answers.take(0).len() == 0);
    if outputs.len() > 0 {
        assert(answers.take(outputs.len() as int) =~= answers);
    }
}

impl View for Relay {
    type V = RelayView;

    closed spec fn view(&self) -> RelayView {
        RelayView {
            ports: self.ports@,
            position: self.position as nat,
            message: self.message@,
            request: self.request@,
            answers: self.answers@,
        }
    }
}

/// A line read from a hook server without its last character, the line feed
/// that ends it (`String::pop`).
pub open spec fn without_last(line: Seq<char>) -> Seq<char> {
    if line.len() > 0 {
        line.drop_last()
    } else {
        line
    }
}

/// `String::pop`: removes the last character, when there is one, and returns it.
#[verifier::external_body]
fn pop_char(s: &mut String) -> (c: Option<char>)
    ensures
        old(s)@.len() == 0 ==> c is None && final(s)@ == old(s)@,
        old(s)@.len() > 0 ==> c == Some(old(s)@.last()) && final(s)@ == old(s)@.drop_last(),
{
    s.pop()
}

impl Relay {
    /// The port of the hook file that gets the message next; `None` once all
    /// have answered.
    pub fn next_port(&self) -> (p: Option<usize>)
        ensures
            self@.position < self@.ports.len() ==> p == Some(self@.ports[self@.position as int]),
            self@.position >= self@.ports.len() ==> p is None,
    {
        if self.position < self.ports.len() {
            Some(self.ports[self.position])
        } else {
            None
        }
    }

    /// The bytes to send to the next hook file: the message and a line feed.
    pub fn outgoing(&self) -> (bytes: Vec<u8>)
        ensures
            bytes@ == frame(self@.message),
    {
        let mut bytes = self.message.as_str().as_bytes_vec();
        bytes.push(10u8);
        bytes
    }

    /// Takes the answer of the hook file that got the message; it becomes the
    /// message, without the line feed that ended it.
    pub fn receive(&mut self, mut line: String)
        requires
            old(self)@.position < old(self)@.ports.len(),
        ensures
            final(self)@.ports == old(self)@.ports,
            final(self)@.position == old(self)@.position + 1,
            final(self)@.message == without_last(line@),
            final(self)@.request == old(self)@.request,
            final(self)@.answers == old(self)@.answers.push(line@),
            relay_consistent(old(self)@) ==> relay_consistent(final(self)@),
    {
        let ghost answer = line@;
        let _ = pop_char(&mut line);
        assert(self.position < self.ports.len());
        self.message = line;
        self.position = self.position + 1;
        proof {
            self.answers = Ghost(self.answers@.push(answer));
        }
    }

    /// The answer for Dredd: the message as it stands.
    pub fn into_response(self) -> (s: String)
        ensures
            s@ == self@.message,
            relay_consistent(self@) ==> s@ == relayed(self@.request, self@.answers),
    {
        self.message
    }
}

} // verus!
