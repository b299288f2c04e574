//! Connecting to a peer: what to do next, and when to give up.
use crate::peer::PeerId;
use vstd::prelude::*;
use vstd::string::StringExecFns;

#[allow(unused_imports)]
use crate::peer::{optional_peer_bytes, stem_topic_of};

verus! {

/// Nanoseconds after which an attempt to connect is given up.
pub const CONNECT_TIMEOUT: u128 = 30_000_000_000;

/// Why an attempt to connect failed.
pub enum ConnectError {
    /// the peer could not be dialled, with the dialler's words
    DialFailed(String),
    /// no connection stood in time
    TimedOut,
    /// the connection was refused, with the network's words
    ConnectionFailed(String),
}

/// Why an attempt to connect failed, with the text that goes with it.
#[verifier::ext_equal]
pub enum Failure {
    DialFailed(Seq<char>),
    TimedOut,
    ConnectionFailed(Seq<char>),
}

impl View for ConnectError {
    type V = Failure;

    open spec fn view(&self) -> Failure {
        match self {
            ConnectError::DialFailed(words) => Failure::DialFailed(words@),
            ConnectError::TimedOut => Failure::TimedOut,
            ConnectError::ConnectionFailed(words) => Failure::ConnectionFailed(words@),
        }
    }
}

/// How a failure is put to the user.
pub open spec fn failure_text(failure: Failure) -> Seq<char> {
    match failure {
        Failure::DialFailed(words) => words,
        Failure::TimedOut => "Connection timeout"@,
        Failure::ConnectionFailed(words) => "Connection failed: "@ + words,
    }
}

impl ConnectError {
    /// How the failure is put to the user.
    pub fn message(&self) -> (text: String)
        ensures
            text@ == failure_text(self@),
            text@ == match self {
                ConnectError::DialFailed(words) => words@,
                ConnectError::TimedOut => "Connection timeout"@,
                ConnectError::ConnectionFailed(words) => "Connection failed: "@ + words@,
            },
    {
        match self {
            ConnectError::DialFailed(words) => words.clone(),
            ConnectError::TimedOut => String::from_str("Connection timeout"),
            ConnectError::ConnectionFailed(words) => String::from_str("Connection failed: ").concat(
                words.as_str(),
            ),
        }
    }
}

impl Clone for ConnectError {
    /// Another value for the same failure.
    fn clone(&self) -> (copy: ConnectError)
        ensures
            copy@ == self@,
    {
        match self {
            ConnectError::DialFailed(words) => ConnectError::DialFailed(words.clone()),
            ConnectError::TimedOut => ConnectError::TimedOut,
            ConnectError::ConnectionFailed(words) => ConnectError::ConnectionFailed(words.clone()),
        }
    }
}

/// How far an attempt to connect has come.
pub enum Progress {
    /// is the peer connected already?
    Checking,
    /// the peer is being dialled
    Dialing,
    /// is the peer connected by now?
    Polling,
    /// how long has it taken so far?
    Timing,
    /// what does the network say?
    Listening,
    /// the connection stands; the topic of the peer is being subscribed to
    Subscribing,
    /// the connection stood already, or stands with its topic subscribed to
    Connected,
    /// the attempt was given up
    Failed(ConnectError),
}

/// How far an attempt to connect has come.
#[verifier::ext_equal]
pub enum Stage {
    Checking,
    Dialing,
    Polling,
    Timing,
    Listening,
    Subscribing,
    Connected,
    Failed(Failure),
}

impl View for Progress {
    type V = Stage;

    open spec fn view(&self) -> Stage {
        match self {
            Progress::Checking => Stage::Checking,
            Progress::Dialing => Stage::Dialing,
            Progress::Polling => Stage::Polling,
            Progress::Timing => Stage::Timing,
            Progress::Listening => Stage::Listening,
            Progress::Subscribing => Stage::Subscribing,
            Progress::Connected => Stage::Connected,
            Progress::Failed(error) => Stage::Failed(error@),
        }
    }
}

/// What an attempt to connect is told.
pub enum ConnectEvent {
    /// whether the peer is connected
    IsConnected(bool),
    /// dialling has begun
    Dialed,
    /// dialling was refused
    DialFailed(String),
    /// nanoseconds since dialling began
    Elapsed(u128),
    /// a connection to a peer stands
    Established(PeerId),
    /// a connection, maybe to a known peer, was not established
    ConnectionError(Option<PeerId>, String),
    /// anything else that the network says
    OtherEvent,
    /// the topic was subscribed to
    Subscribed,
}

/// What an attempt to connect is told.
#[verifier::ext_equal]
pub enum Told {
    IsConnected(bool),
    Dialed,
    DialFailed(Seq<char>),
    Elapsed(nat),
    Established(Seq<u8>),
    ConnectionError(Option<Seq<u8>>, Seq<char>),
    OtherEvent,
    Subscribed,
}

impl View for ConnectEvent {
    type V = Told;

    open spec fn view(&self) -> Told {
        match self {
            ConnectEvent::IsConnected(yes) => Told::IsConnected(*yes),
            ConnectEvent::Dialed => Told::Dialed,
            ConnectEvent::DialFailed(words) => Told::DialFailed(words@),
            ConnectEvent::Elapsed(nanos) => Told::Elapsed(*nanos as nat),
            ConnectEvent::Established(peer) => Told::Established(peer@),
            ConnectEvent::ConnectionError(peer, words) => Told::ConnectionError(
                optional_peer_bytes(*peer),
                words@,
            ),
            ConnectEvent::OtherEvent => Told::OtherEvent,
            ConnectEvent::Subscribed => Told::Subscribed,
        }
    }
}

/// What an attempt to connect wants done next.
pub enum ConnectAction {
    /// find out whether the peer is connected
    AskConnected,
    /// dial the peer
    Dial,
    /// find out how long it has taken since dialling began
    AskElapsed,
    /// wait for the network to say something
    NextEvent,
    /// subscribe to a topic
    Subscribe(String),
    /// nothing: the attempt is over
    Finish(Result<(), ConnectError>),
}

/// What an attempt to connect wants done next.
#[verifier::ext_equal]
pub enum Wanted {
    AskConnected,
    Dial,
    AskElapsed,
    NextEvent,
    Subscribe(Seq<char>),
    Finish(Result<(), Failure>),
}

impl View for ConnectAction {
    type V = Wanted;

    open spec fn view(&self) -> Wanted {
        match self {
            ConnectAction::AskConnected => Wanted::AskConnected,
            ConnectAction::Dial => Wanted::Dial,
            ConnectAction::AskElapsed => Wanted::AskElapsed,
            ConnectAction::NextEvent => Wanted::NextEvent,
            ConnectAction::Subscribe(topic) => Wanted::Subscribe(topic@),
            ConnectAction::Finish(Ok(())) => Wanted::Finish(Ok(())),
            ConnectAction::Finish(Err(error)) => Wanted::Finish(Err(error@)),
        }
    }
}

/// How far an attempt to connect to `peer` is once it is told `told`. A peer that is connected
/// already is not dialled. Once the peer is dialled, the attempt waits until the peer is connected
/// or the network tells so, until the network reports a failure for this peer, or until it has
/// taken too long; what the network tells of other peers is passed over. Then the topic of the
/// peer is subscribed to. What was not asked for changes nothing.
pub open spec fn next_stage(peer: Seq<u8>, stage: Stage, told: Told) -> Stage {
    match (stage, told) {
        (Stage::Checking, Told::IsConnected(true)) => Stage::Connected,
        (Stage::Checking, Told::IsConnected(false)) => Stage::Dialing,
        (Stage::Dialing, Told::Dialed) => Stage::Polling,
        (Stage::Dialing, Told::DialFailed(words)) => Stage::Failed(Failure::DialFailed(words)),
        (Stage::Polling, Told::IsConnected(true)) => Stage::Subscribing,
        (Stage::Polling, Told::IsConnected(false)) => Stage::Timing,
        (Stage::Timing, Told::Elapsed(nanos)) => if nanos > CONNECT_TIMEOUT {
            Stage::Failed(Failure::TimedOut)
        } else {
            Stage::Listening
        },
        (Stage::Listening, Told::Established(other)) => if other == peer {
            Stage::Subscribing
        } else {
            Stage::Polling
        },
        (Stage::Listening, Told::ConnectionError(other, words)) => if other == Some(peer) {
            Stage::Failed(Failure::ConnectionFailed(words))
        } else {
            Stage::Polling
        },
        (Stage::Listening, Told::OtherEvent) => Stage::Polling,
        (Stage::Subscribing, Told::Subscribed) => Stage::Connected,
        _ => stage,
    }
}

/// What an attempt to connect to `peer` wants done at a stage.
pub open spec fn wanted_at(peer: Seq<u8>, stage: Stage) -> Wanted {
    match stage {
        Stage::Checking => Wanted::AskConnected,
        Stage::Dialing => Wanted::Dial,
        Stage::Polling => Wanted::AskConnected,
        Stage::Timing => Wanted::AskElapsed,
        Stage::Listening => Wanted::NextEvent,
        Stage::Subscribing => Wanted::Subscribe(stem_topic_of(peer)),
        Stage::Connected => Wanted::Finish(Ok(())),
        Stage::Failed(failure) => Wanted::Finish(Err(failure)),
    }
}

/// An attempt to connect to a peer.
pub struct Attempt {
    pub peer: PeerId,
    pub progress: Progress,
}

impl Attempt {
    /// An attempt that has not begun.
    pub fn new(peer: PeerId) -> (attempt: Attempt)
        ensures
            attempt.peer@ == peer@,
            attempt.progress@ == Stage::Checking,
            attempt.progress is Checking,
    {
        Attempt { peer, progress: Progress::Checking }
    }

    /// What is to be done next.
    pub fn action(&self) -> (action: ConnectAction)
        ensures
            action@ == wanted_at(self.peer@, self.progress@),
            match self.progress {
                Progress::Checking | Progress::Polling => action is AskConnected,
                Progress::Dialing => action is Dial,
                Progress::Timing => action is AskElapsed,
                Progress::Listening => action is NextEvent,
                Progress::Subscribing => action matches ConnectAction::Subscribe(topic) && topic@ == "stem-"@
                    + crate::peer::base58(self.peer@),
                Progress::Connected => action matches ConnectAction::Finish(Ok(_)),
                Progress::Failed(error) => action matches ConnectAction::Finish(Err(e)) && e@ == error@,
            },
    {
        match &self.progress {
            Progress::Checking => ConnectAction::AskConnected,
            Progress::Dialing => ConnectAction::Dial,
            Progress::Polling => ConnectAction::AskConnected,
            Progress::Timing => ConnectAction::AskElapsed,
            Progress::Listening => ConnectAction::NextEvent,
            Progress::Subscribing => ConnectAction::Subscribe(self.peer.stem_topic()),
            Progress::Connected => ConnectAction::Finish(Ok(())),
            Progress::Failed(error) => ConnectAction::Finish(Err(error.clone())),
        }
    }

    /// Takes in what came of the last action.
    pub fn step(self, event: ConnectEvent) -> (next: Attempt)
        ensures
            next.peer@ == self.peer@,
            next.progress@ == next_stage(self.peer@, self.progress@, event@),
            self.progress is Checking ==> (event matches ConnectEvent::IsConnected(yes) ==> if yes {
                next.progress is Connected
            } else {
                next.progress is Dialing
            }),
            self.progress is Dialing && event is Dialed ==> next.progress is Polling,
            self.progress is Polling ==> (event matches ConnectEvent::IsConnected(yes) ==> if yes {
                next.progress is Subscribing
            } else {
                next.progress is Timing
            }),
            self.progress is Listening && event is OtherEvent ==> next.progress is Polling,
            self.progress is Subscribing && event is Subscribed ==> next.progress is Connected,
            self.progress is Connected ==> next.progress is Connected,
            self.progress is Timing ==> (event matches ConnectEvent::Elapsed(nanos) ==> if nanos
                > 30_000_000_000 {
                next.progress matches Progress::Failed(ConnectError::TimedOut)
            } else {
                next.progress is Listening
            }),
            self.progress is Dialing ==> (event matches ConnectEvent::DialFailed(words) ==> (next.progress
                matches Progress::Failed(ConnectError::DialFailed(w)) && w@ == words@)),
            self.progress is Listening ==> (event matches ConnectEvent::Established(other) ==> if other@
                == self.peer@ {
                next.progress is Subscribing
            } else {
                next.progress is Polling
            }),
            self.progress is Listening ==> (event matches ConnectEvent::ConnectionError(other, words) ==> if (
            other matches Some(o) && o@ == self.peer@) {
                next.progress matches Progress::Failed(ConnectError::ConnectionFailed(w)) && w@ == words@
            } else {
                next.progress is Polling
            }),
    {
        let peer = self.peer;
        let progress = match (self.progress, event) {
            (Progress::Checking, ConnectEvent::IsConnected(yes)) => if yes {
                Progress::Connected
            } else {
                Progress::Dialing
            },
            (Progress::Dialing, ConnectEvent::Dialed) => Progress::Polling,
            (Progress::Dialing, ConnectEvent::DialFailed(words)) => Progress::Failed(
                ConnectError::DialFailed(words),
            ),
            (Progress::Polling, ConnectEvent::IsConnected(yes)) => if yes {
                Progress::Subscribing
            } else {
                Progress::Timing
            },
            (Progress::Timing, ConnectEvent::Elapsed(nanos)) => if nanos > CONNECT_TIMEOUT {
                Progress::Failed(ConnectError::TimedOut)
            } else {
                Progress::Listening
            },
            (Progress::Listening, ConnectEvent::Established(other)) => if other.same(&peer) {
                Progress::Subscribing
            } else {
                Progress::Polling
            },
            (Progress::Listening, ConnectEvent::ConnectionError(Some(other), words)) => if other.same(
                &peer,
            ) {
                Progress::Failed(ConnectError::ConnectionFailed(words))
            } else {
                Progress::Polling
            },
            (Progress::Listening, ConnectEvent::ConnectionError(None, _)) => Progress::Polling,
            (Progress::Listening, ConnectEvent::OtherEvent) => Progress::Polling,
            (Progress::Subscribing, ConnectEvent::Subscribed) => Progress::Connected,
            (progress, _) => progress,
        };
        Attempt { peer, progress }
    }
}

/// How far an attempt to connect to `peer`, begun at `stage`, is once it is told all of `told`.
pub open spec fn stage_after(peer: Seq<u8>, stage: Stage, told: Seq<Told>) -> Stage
    decreases told.len(),
{
    if told.len() == 0 {
        stage
    } else {
        next_stage(peer, stage_after(peer, stage, told.drop_last()), told.last())
    }
}

/// Whether `told` says that the peer is connected.
pub open spec fn tells_connected(peer: Seq<u8>, told: Told) -> bool {
    told == Told::IsConnected(true) || told == Told::Established(peer)
}

/// An attempt that is over stays as it is.
pub proof fn finished_attempts_stay_finished(peer: Seq<u8>, stage: Stage, told: Seq<Told>)
    requires
        stage is Connected || stage is Failed,
    ensures
        stage_after(peer, stage, told) == stage,
    decreases told.len(),
{
    if told.len() > 0 {
        finished_attempts_stay_finished(peer, stage, told.drop_last());
    }
}

/// An attempt succeeds, and subscribes to the topic of its peer, only once it was told that the
/// peer is connected.
pub proof fn success_means_connected(peer: Seq<u8>, told: Seq<Told>)
    requires
        stage_after(peer, Stage::Checking, told) is Connected
            || stage_after(peer, Stage::Checking, told) is Subscribing,
    ensures
        exists|i: int| 0 <= i < told.len() && tells_connected(peer, #[trigger] told[i]),
    decreases told.len(),
{
    if told.len() > 0 {
        let rest = told.drop_last();
        let before = stage_after(peer, Stage::Checking, rest);
        if before is Connected || before is Subscribing {
            success_means_connected(peer, rest);
            let i = choose|i: int| 0 <= i < rest.len() && tells_connected(peer, #[trigger] rest[i]);
            assert(told[i] == rest[i]);
        } else {
            assert(tells_connected(peer, told[told.len() - 1]));
        }
    }
}

/// Whether `told` is the reason for a failure of an attempt to connect to `peer`.
pub open spec fn tells_failure(peer: Seq<u8>, told: Told, failure: Failure) -> bool {
    match failure {
        Failure::DialFailed(words) => told == Told::DialFailed(words),
        Failure::TimedOut => told is Elapsed && told->Elapsed_0 > CONNECT_TIMEOUT,
        Failure::ConnectionFailed(words) => told == Told::ConnectionError(Some(peer), words),
    }
}

/// An attempt fails only for a reason that it was told: a refused dial, more time than is allowed,
/// or a connection to its own peer that was not established.
pub proof fn failures_have_a_reason(peer: Seq<u8>, told: Seq<Told>, failure: Failure)
    requires
        stage_after(peer, Stage::Checking, told) == Stage::Failed(failure),
    ensures
        exists|i: int| 0 <= i < told.len() && tells_failure(peer, #[trigger] told[i], failure),
    decreases told.len(),
{
    if told.len() > 0 {
        let rest = told.drop_last();
        let before = stage_after(peer, Stage::Checking, rest);
        if before is Failed {
            failures_have_a_reason(peer, rest, failure);
            let i = choose|i: int| 0 <= i < rest.len() && tells_failure(peer, #[trigger] rest[i], failure);
            assert(told[i] == rest[i]);
        } else {
            assert(tells_failure(peer, told[told.len() - 1], failure));
        }
    }
}

/// A peer that is connected already is neither dialled nor subscribed to.
pub proof fn connected_peer_is_left_alone(peer: Seq<u8>, told: Seq<Told>)
    requires
        told.len() > 0,
        told[0] == Told::IsConnected(true),
    ensures
        wanted_at(peer, stage_after(peer, Stage::Checking, told)) == Wanted::Finish(Ok(())),
    decreases told.len(),
{
    if told.len() > 1 {
        connected_peer_is_left_alone(peer, told.drop_last());
        assert(stage_after(peer, Stage::Checking, told.drop_last()) is Connected);
    } else {
        assert(stage_after(peer, Stage::Checking, told.drop_last()) == Stage::Checking);
    }
}

/// Whether `told` is an answer to what was wanted.
pub open spec fn answers(wanted: Wanted, told: Told) -> bool {
    match wanted {
        Wanted::AskConnected => told is IsConnected,
        Wanted::Dial => told is Dialed || told is DialFailed,
        Wanted::AskElapsed => told is Elapsed,
        Wanted::NextEvent => told is Established || told is ConnectionError || told is OtherEvent,
        Wanted::Subscribe(_) => told is Subscribed,
        Wanted::Finish(_) => false,
    }
}

/// Every answer to what an attempt wants moves it on, and nothing else does.
pub proof fn answers_move_an_attempt_on(peer: Seq<u8>, stage: Stage, told: Told)
    ensures
        answers(wanted_at(peer, stage), told) <==> next_stage(peer, stage, told) != stage,
{
}

/// An attempt that asks how long it has taken is given up exactly if it is told of more than thirty
/// seconds, and otherwise goes on to listen; once given up it wants nothing more, whatever it is
/// told.
pub proof fn overdue_attempts_are_given_up(peer: Seq<u8>, stage: Stage, nanos: nat, later: Seq<Told>)
    requires
        wanted_at(peer, stage) == Wanted::AskElapsed,
    ensures
        nanos > 30_000_000_000 <==> next_stage(peer, stage, Told::Elapsed(nanos)) == Stage::Failed(
            Failure::TimedOut,
        ),
        nanos <= 30_000_000_000 <==> wanted_at(peer, next_stage(peer, stage, Told::Elapsed(nanos)))
            == Wanted::NextEvent,
        nanos > 30_000_000_000 ==> wanted_at(
            peer,
            stage_after(peer, next_stage(peer, stage, Told::Elapsed(nanos)), later),
        ) == Wanted::Finish(Err(Failure::TimedOut)),
{
    if nanos > 30_000_000_000 {
        finished_attempts_stay_finished(peer, next_stage(peer, stage, Told::Elapsed(nanos)), later);
    }
}

/// While an attempt listens, a connection to its own peer makes it subscribe to the topic of that
/// peer, and a failed connection to its own peer makes it fail with the network's words. Whatever
/// else the network says makes it ask again whether the peer is connected.
pub proof fn listening_attempts_heed_their_own_peer(
    peer: Seq<u8>,
    stage: Stage,
    other: Seq<u8>,
    failed: Option<Seq<u8>>,
    words: Seq<char>,
)
    requires
        wanted_at(peer, stage) == Wanted::NextEvent,
    ensures
        wanted_at(peer, next_stage(peer, stage, Told::Established(other))) == if other == peer {
            Wanted::Subscribe("stem-"@ + crate::peer::base58(peer))
        } else {
            Wanted::AskConnected
        },
        wanted_at(peer, next_stage(peer, stage, Told::ConnectionError(failed, words))) == if failed == Some(
            peer,
        ) {
            Wanted::Finish(Err(Failure::ConnectionFailed(words)))
        } else {
            Wanted::AskConnected
        },
        wanted_at(peer, next_stage(peer, stage, Told::OtherEvent)) == Wanted::AskConnected,
{
}

/// A peer that is not connected is dialled; if the dial is refused the attempt fails with the
/// dialler's words, and if it is not, the attempt asks again whether the peer is connected.
pub proof fn unconnected_peers_are_dialled(peer: Seq<u8>, words: Seq<char>)
    ensures
        wanted_at(peer, Stage::Checking) == Wanted::AskConnected,
        wanted_at(peer, stage_after(peer, Stage::Checking, seq![Told::IsConnected(false)])) == Wanted::Dial,
        wanted_at(
            peer,
            stage_after(peer, Stage::Checking, seq![Told::IsConnected(false), Told::DialFailed(words)]),
        ) == Wanted::Finish(Err(Failure::DialFailed(words))),
        wanted_at(
            peer,
            stage_after(peer, Stage::Checking, seq![Told::IsConnected(false), Told::Dialed]),
        ) == Wanted::AskConnected,
{
    reveal_with_fuel(stage_after, 4);
    let refused = seq![Told::IsConnected(false), Told::DialFailed(words)];
    let dialled = seq![Told::IsConnected(false), Told::Dialed];
    assert(refused.drop_last() =~= seq![Told::IsConnected(false)]);
    assert(dialled.drop_last() =~= seq![Told::IsConnected(false)]);
    assert(seq![Told::IsConnected(false)].drop_last() =~= Seq::<Told>::empty());
}

/// Once a peer was dialled, an attempt that is told that the peer is connected subscribes to the
/// topic of the peer and then succeeds; one that is told that it is not asks how long it has taken.
/// This holds however often the attempt has listened in between.
pub proof fn dialled_attempts_subscribe_and_succeed(peer: Seq<u8>, told: Seq<Told>)
    requires
        wanted_at(peer, stage_after(peer, Stage::Checking, told)) == Wanted::AskConnected,
        exists|i: int| 0 <= i < told.len() && told[i] == Told::Dialed && wanted_at(
            peer,
            stage_after(peer, Stage::Checking, #[trigger] told.take(i)),
        ) == Wanted::Dial,
    ensures
        ({
            let yes = next_stage(peer, stage_after(peer, Stage::Checking, told), Told::IsConnected(true));
            let no = next_stage(peer, stage_after(peer, Stage::Checking, told), Told::IsConnected(false));
            &&& wanted_at(peer, yes) == Wanted::Subscribe("stem-"@ + crate::peer::base58(peer))
            &&& wanted_at(peer, next_stage(peer, yes, Told::Subscribed)) == Wanted::Finish(Ok(()))
            &&& wanted_at(peer, no) == Wanted::AskElapsed
        }),
{
    let i = choose|i: int| 0 <= i < told.len() && told[i] == Told::Dialed && wanted_at(
        peer,
        stage_after(peer, Stage::Checking, #[trigger] told.take(i)),
    ) == Wanted::Dial;
    assert(told.take(i + 1).drop_last() =~= told.take(i));
    assert(stage_after(peer, Stage::Checking, told.take(i + 1)) is Polling);
    never_back_to_the_beginning(peer, told, i + 1);
}

/// An attempt that has begun does not begin anew.
proof fn never_back_to_the_beginning(peer: Seq<u8>, told: Seq<Told>, from: int)
    requires
        0 <= from <= told.len(),
        !(stage_after(peer, Stage::Checking, told.take(from)) is Checking),
    ensures
        !(stage_after(peer, Stage::Checking, told) is Checking),
    decreases told.len() - from,
{
    if from == told.len() {
        assert(told.take(from) =~= told);
    } else {
        assert(told.take(from + 1).drop_last() =~= told.take(from));
        never_back_to_the_beginning(peer, told, from + 1);
    }
}

/// How a failure is put to the user.
pub proof fn failures_are_put_into_words(words: Seq<char>)
    ensures
        failure_text(Failure::DialFailed(words)) == words,
        failure_text(Failure::TimedOut) == "Connection timeout"@,
        failure_text(Failure::ConnectionFailed(words)) == "Connection failed: "@ + words,
{
}

} // verus!
