//! A small application of SEQEX: two peers that say "Hello World!" together.
use vstd::prelude::*;

verus! {

/// What one peer says to the other.
#[derive(Clone, Copy, Debug, PartialEq, Eq, Structural)]
pub enum Word {
    /// Begins the exchange.
    Hello,
    /// Replies to `Hello`.
    Space,
    /// Replies to `Space`.
    World,
    /// Replies to `World`.
    Exclamation,
}

/// What a peer does about a word that it receives.
#[derive(Clone, Copy, Debug, PartialEq, Eq, Structural)]
pub enum Response {
    /// Print the word, and reply with another one, or acknowledge it.
    Say { reply: Option<Word> },
    /// The word was not a reply, but should have been.
    Unsolicited,
    /// The word was a reply to the wrong word.
    Incorrect,
}

/// The word that follows.
pub open spec fn next_word(word: Word) -> Option<Word> {
    match word {
        Word::Hello => Some(Word::Space),
        Word::Space => Some(Word::World),
        Word::World => Some(Word::Exclamation),
        Word::Exclamation => None,
    }
}

/// Decides what to do about `received`, which is a reply to `sent` if there is such a word.
pub fn process(received: Word, sent: Option<Word>) -> (response: Response)
    ensures
        match sent {
            None => if received == Word::Hello {
                response == (Response::Say { reply: next_word(received) })
            } else {
                response == Response::Unsolicited
            },
            Some(sent) => if next_word(sent) == Some(received) {
                response == (Response::Say { reply: next_word(received) })
            } else {
                response == Response::Incorrect
            },
        },
{
    match (received, sent) {
        (Word::Hello, None) => Response::Say { reply: Some(Word::Space) },
        (Word::Space, Some(Word::Hello)) => Response::Say { reply: Some(Word::World) },
        (Word::World, Some(Word::Space)) => Response::Say { reply: Some(Word::Exclamation) },
        (Word::Exclamation, Some(Word::World)) => Response::Say { reply: None },
        (_, None) => Response::Unsolicited,
        (_, Some(_)) => Response::Incorrect,
    }
}

/// Whether the exchange ends with the ack of `sent`.
pub fn is_last(sent: Word) -> (last: bool)
    ensures
        last == (next_word(sent) is None),
{
    match sent {
        Word::Exclamation => true,
        _ => false,
    }
}

/// How a word is printed.
pub open spec fn spelled(word: Word) -> Seq<char> {
    match word {
        Word::Hello => "Hello"@,
        Word::Space => " "@,
        Word::World => "World"@,
        Word::Exclamation => "!"@,
    }
}

/// How a word is printed.
pub fn spell(word: Word) -> (text: &'static str)
    ensures
        text@ == spelled(word),
{
    match word {
        Word::Hello => "Hello",
        Word::Space => " ",
        Word::World => "World",
        Word::Exclamation => "!",
    }
}

/// What is printed from `word` on, if both peers do as `process` says.
pub open spec fn said_from(word: Word) -> Seq<char>
    decreases
            match word {
                Word::Hello => 3int,
                Word::Space => 2,
                Word::World => 1,
                Word::Exclamation => 0,
            },
{
    match next_word(word) {
        Some(next) => spelled(word) + said_from(next),
        None => spelled(word),
    }
}

/// The two peers say "Hello World!" together.
pub proof fn says_hello_world()
    ensures
        said_from(Word::Hello) == "Hello World!"@,
{
    reveal_strlit("Hello World!");
    reveal_strlit("Hello");
    reveal_strlit(" ");
    reveal_strlit("World");
    reveal_strlit("!");
    reveal_with_fuel(said_from, 4);
    assert(said_from(Word::Hello) =~= "Hello World!"@);
}

/// The first word is answered only where nothing was sent before, and each other word only where it
/// follows what was sent. The answer is the word after it, and there is none after the last.
pub proof fn each_word_is_answered_by_the_next(
    received: Word,
    sent: Option<Word>,
    response: Response,
)
    requires
        call_ensures(process, (received, sent), response),
    ensures
        response is Say <==> {
            ||| received is Hello && sent is None
            ||| received is Space && sent == Some(Word::Hello)
            ||| received is World && sent == Some(Word::Space)
            ||| received is Exclamation && sent == Some(Word::World)
        },
        response is Unsolicited <==> sent is None && !(received is Hello),
        response matches Response::Say { reply } ==> match received {
            Word::Hello => reply == Some(Word::Space),
            Word::Space => reply == Some(Word::World),
            Word::World => reply == Some(Word::Exclamation),
            Word::Exclamation => reply is None,
        },
{
}

/// Nothing but the exclamation mark ends the exchange.
pub proof fn exclamation_is_last(sent: Word, last: bool)
    requires
        call_ensures(is_last, (sent,), last),
    ensures
        last <==> sent is Exclamation,
{
}

/// Each word is spelled as it is said.
pub proof fn words_are_spelled_out(word: Word, text: &'static str)
    requires
        call_ensures(spell, (word,), text),
    ensures
        word is Hello ==> text@ == "Hello"@,
        word is Space ==> text@ == " "@,
        word is World ==> text@ == "World"@,
        word is Exclamation ==> text@ == "!"@,
{
}

} // verus!
