//! The lines that a user types.
use vstd::prelude::*;
use vstd::string::{StrSliceExecFns, StringExecFns};

verus! {

/// What a line asks for.
pub enum Command {
    /// connect to the peer at an address
    AddPeer(String),
    /// send a message
    Send(String),
    /// nothing
    Other,
}

/// What a line asks for, with the text that it gives.
#[verifier::ext_equal]
pub enum CommandView {
    AddPeer(Seq<char>),
    Send(Seq<char>),
    Other,
}

impl View for Command {
    type V = CommandView;

    open spec fn view(&self) -> CommandView {
        match self {
            Command::AddPeer(address) => CommandView::AddPeer(address@),
            Command::Send(text) => CommandView::Send(text@),
            Command::Other => CommandView::Other,
        }
    }
}

/// Whether `word` stands in `text` at the position `at`.
pub open spec fn occurs_at(text: Seq<char>, word: Seq<char>, at: int) -> bool {
    &&& 0 <= at <= text.len() - word.len()
    &&& text.subrange(at, at + word.len()) == word
}

/// The text that is left when `word` is taken out of `text` wherever it stands, from left to
/// right.
pub open spec fn without(text: Seq<char>, word: Seq<char>) -> Seq<char>
    decreases text.len(),
{
    if text.len() == 0 || word.len() == 0 {
        text
    } else if occurs_at(text, word, 0) {
        without(text.skip(word.len() as int), word)
    } else {
        seq![text[0]] + without(text.skip(1), word)
    }
}

/// What the line `line` asks for.
pub open spec fn command_of(line: Seq<char>) -> CommandView {
    if occurs_at(line, "add peer "@, 0) {
        CommandView::AddPeer(without(line, "add peer "@))
    } else if occurs_at(line, "send "@, 0) {
        CommandView::Send(without(line, "send "@))
    } else {
        CommandView::Other
    }
}

/// The characters of a text.
fn characters(text: &str) -> (chars: Vec<char>)
    ensures
        chars@ == text@,
{
    let count = text.unicode_len();
    let mut chars: Vec<char> = Vec::new();
    let mut rest = text.chars();
    let mut i: usize = 0;
    while i < count
        invariant
            i <= count,
            count == text@.len(),
            vstd::std_specs::iter::IteratorSpec::remaining(&rest) == text@.skip(i as int),
            vstd::std_specs::iter::IteratorSpec::obeys_prophetic_iter_laws(&rest),
            chars@ == text@.take(i as int),
        decreases count - i,
    {
        match rest.next() {
            Some(c) => {
                chars.push(c);
            },
            None => {
                assert(false);
            },
        }
        i += 1;
        assert(chars@ =~= text@.take(i as int));
        assert(text@.skip(i - 1).drop_first() =~= text@.skip(i as int));
    }
    assert(text@.take(i as int) =~= text@);
    chars
}

/// Whether `word` stands in `text` at the position `at`.
fn occurs(text: &Vec<char>, word: &Vec<char>, at: usize) -> (found: bool)
    requires
        at <= text@.len(),
    ensures
        found == occurs_at(text@, word@, at as int),
{
    if word.len() > text.len() - at {
        return false;
    }
    let mut i: usize = 0;
    while i < word.len()
        invariant
            i <= word.len(),
            at + word.len() <= text.len(),
            forall|k: int| 0 <= k < i ==> text@[at + k] == word@[k],
        decreases word.len() - i,
    {
        if text[at + i] != word[i] {
            assert(text@.subrange(at as int, at + word@.len())[i as int] != word@[i as int]);
            return false;
        }
        i += 1;
    }
    assert(text@.subrange(at as int, at + word@.len()) =~= word@);
    true
}

/// Takes a word out of a text wherever it stands.
fn take_out(text: &str, word: &str) -> (rest: String)
    requires
        word@.len() > 0,
    ensures
        rest@ == without(text@, word@),
{
    let chars = characters(text);
    let pattern = characters(word);
    let mut rest = String::new();
    let mut start: usize = 0;
    let mut i: usize = 0;
    assert(text@.skip(0) =~= text@);
    assert(rest@ + text@.subrange(0, 0) + without(text@.skip(0), word@) =~= without(text@, word@));
    while i < chars.len()
        invariant
            start <= i <= chars.len(),
            chars@ == text@,
            pattern@ == word@,
            word@.len() > 0,
            rest@ + text@.subrange(start as int, i as int) + without(text@.skip(i as int), word@)
                == without(text@, word@),
        decreases chars.len() - i,
    {
        let ghost tail = text@.skip(i as int);
        assert(occurs_at(tail, word@, 0) == occurs_at(text@, word@, i as int)) by {
            if word@.len() <= tail.len() {
                assert(tail.subrange(0, word@.len() as int) =~= text@.subrange(i as int, i + word@.len()));
            }
        }
        if occurs(&chars, &pattern, i) {
            rest.append(text.substring_char(start, i));
            i += pattern.len();
            start = i;
            proof {
                assert(tail.skip(word@.len() as int) =~= text@.skip(i as int));
                assert(text@.subrange(start as int, i as int) =~= Seq::<char>::empty());
                assert(rest@ + text@.subrange(start as int, i as int) =~= rest@);
            }
        } else {
            let ghost before = text@.subrange(start as int, i as int);
            i += 1;
            proof {
                assert(tail.skip(1) =~= text@.skip(i as int));
                assert(text@.subrange(start as int, i as int) =~= before.push(tail[0]));
                assert(rest@ + before.push(tail[0]) + without(tail.skip(1), word@) =~= rest@ + before + (
                seq![tail[0]] + without(tail.skip(1), word@)));
            }
        }
    }
    rest.append(text.substring_char(start, i));
    assert(text@.skip(i as int) =~= Seq::<char>::empty());
    assert(rest@ =~= without(text@, word@));
    rest
}

/// Finds out what a line asks for.
pub fn parse_command(line: &str) -> (command: Command)
    ensures
        command@ == command_of(line@),
{
    proof {
        reveal_strlit("add peer ");
        reveal_strlit("send ");
    }
    let chars = characters(line);
    if occurs(&chars, &characters("add peer "), 0) {
        Command::AddPeer(take_out(line, "add peer "))
    } else if occurs(&chars, &characters("send "), 0) {
        Command::Send(take_out(line, "send "))
    } else {
        Command::Other
    }
}

/// Taking a word out of a text in which it does not stand changes nothing.
pub proof fn without_absent_word(text: Seq<char>, word: Seq<char>)
    requires
        forall|at: int| !occurs_at(text, word, at),
    ensures
        without(text, word) == text,
    decreases text.len(),
{
    if text.len() > 0 && word.len() > 0 {
        let tail = text.skip(1);
        assert(!occurs_at(text, word, 0));
        assert forall|at: int| !occurs_at(tail, word, at) by {
            if 0 <= at <= tail.len() - word.len() {
                assert(tail.subrange(at, at + word.len()) =~= text.subrange(at + 1, at + 1 + word.len()));
                assert(!occurs_at(text, word, at + 1));
            }
        }
        without_absent_word(tail, word);
        assert(seq![text[0]] + tail =~= text);
    }
}

/// A word followed by a text in which it does not stand again gives that text.
proof fn without_leading_word(word: Seq<char>, text: Seq<char>)
    requires
        word.len() > 0,
        forall|at: int| !occurs_at(text, word, at),
    ensures
        without(word + text, word) == text,
        occurs_at(word + text, word, 0),
{
    let line = word + text;
    assert(line.subrange(0, word.len() as int) =~= word);
    assert(line.skip(word.len() as int) =~= text);
    without_absent_word(text, word);
}

/// `add peer ` followed by an address asks for a connection to that address.
pub proof fn add_peer_gives_its_address(address: Seq<char>)
    requires
        forall|at: int| !occurs_at(address, "add peer "@, at),
    ensures
        command_of("add peer "@ + address) == CommandView::AddPeer(address),
{
    reveal_strlit("add peer ");
    without_leading_word("add peer "@, address);
}

/// `send ` followed by a text asks for that text to be sent.
pub proof fn send_gives_its_text(text: Seq<char>)
    requires
        forall|at: int| !occurs_at(text, "send "@, at),
    ensures
        command_of("send "@ + text) == CommandView::Send(text),
{
    reveal_strlit("add peer ");
    reveal_strlit("send ");
    without_leading_word("send "@, text);
    let line = "send "@ + text;
    if occurs_at(line, "add peer "@, 0) {
        assert(line.subrange(0, 9)[0] == 'a');
        assert(line[0] == 's');
    }
}

/// A text in which a word stands at no position is left as it is.
pub proof fn absent_words_take_nothing_out(text: Seq<char>, word: Seq<char>)
    requires
        forall|at: int|
            0 <= at <= text.len() - word.len() ==> #[trigger] text.subrange(at, at + word.len()) != word,
    ensures
        without(text, word) == text,
{
    assert forall|at: int| !occurs_at(text, word, at) by {
        if 0 <= at <= text.len() - word.len() {
            assert(text.subrange(at, at + word.len()) != word);
        }
    }
    without_absent_word(text, word);
}

/// Where a word first stands in a text at the position `at`, what stands before it is kept, the word
/// itself is left out, and the same goes on with the rest.
pub proof fn the_first_word_is_taken_out(text: Seq<char>, word: Seq<char>, at: int)
    requires
        word.len() > 0,
        0 <= at <= text.len() - word.len(),
        text.subrange(at, at + word.len()) == word,
        forall|k: int| 0 <= k < at ==> #[trigger] text.subrange(k, k + word.len()) != word,
    ensures
        without(text, word) == text.take(at) + without(text.skip(at + word.len()), word),
    decreases at,
{
    let len = word.len() as int;
    if at == 0 {
        assert(text.subrange(0, len) == word);
        assert(text.take(0) + without(text.skip(len), word) =~= without(text.skip(len), word));
    } else {
        assert(text.subrange(0, 0 + len) != word);
        let tail = text.skip(1);
        assert(tail.subrange(at - 1, at - 1 + len) =~= text.subrange(at, at + len));
        assert forall|k: int| 0 <= k < at - 1 implies #[trigger] tail.subrange(k, k + len) != word by {
            assert(tail.subrange(k, k + len) =~= text.subrange(k + 1, k + 1 + len));
        }
        the_first_word_is_taken_out(tail, word, at - 1);
        assert(tail.skip(at - 1 + len) =~= text.skip(at + len));
        assert(seq![text[0]] + (tail.take(at - 1) + without(text.skip(at + len), word)) =~= text.take(at)
            + without(text.skip(at + len), word));
    }
}

/// A line asks for a connection exactly if it begins with `add peer `, and for a message to be sent
/// exactly if it begins with `send `; the text is what follows, with the word taken out of it.
pub proof fn lines_are_told_by_their_beginning(line: Seq<char>)
    ensures
        line.len() >= 9 && line.take(9) == "add peer "@ <==> command_of(line) is AddPeer,
        line.len() >= 5 && line.take(5) == "send "@ <==> command_of(line) is Send,
        command_of(line) matches CommandView::AddPeer(address) ==> address == without(
            line.skip(9),
            "add peer "@,
        ),
        command_of(line) matches CommandView::Send(text) ==> text == without(line.skip(5), "send "@),
{
    reveal_strlit("add peer ");
    reveal_strlit("send ");
    if line.len() >= 9 {
        assert(line.subrange(0, 9) =~= line.take(9));
    }
    if line.len() >= 5 {
        assert(line.subrange(0, 5) =~= line.take(5));
    }
    if line.len() >= 9 && line.take(9) == "add peer "@ && line.take(5) == "send "@ {
        assert(line.take(9)[0] == 'a');
        assert(line.take(5)[0] == 's');
    }
}

} // verus!
