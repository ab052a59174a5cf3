//! The command line of the running program: what a typed line asks for.

use crate::registry::copy_list;
use vstd::prelude::*;

verus! {

/// Whether the character separates words: the characters that Unicode
/// lists as white space.
pub open spec fn spec_is_space(c: char) -> bool {
    ({
        let code = c as u32;
        (0x09 <= code <= 0x0d) || code == 0x20 || code == 0x85 || code == 0xa0 || code == 0x1680
            || (0x2000 <= code <= 0x200a) || code == 0x2028 || code == 0x2029 || code == 0x202f
            || code == 0x205f || code == 0x3000
    })
}

#[verifier::when_used_as_spec(spec_is_space)]
pub fn is_space(c: char) -> (space: bool)
    ensures
        space == spec_is_space(c),
{
    let code = c as u32;
    (0x09 <= code && code <= 0x0d) || code == 0x20 || code == 0x85 || code == 0xa0 || code
        == 0x1680 || (0x2000 <= code && code <= 0x200a) || code == 0x2028 || code == 0x2029 || code
        == 0x202f || code == 0x205f || code == 0x3000
}

/// How many characters stand at the front of the text before its first
/// space, or its end.
pub open spec fn spec_word_len(text: Seq<char>) -> nat
    decreases text.len(),
{
    if text.len() == 0 || spec_is_space(text[0]) {
        0
    } else {
        1 + spec_word_len(text.drop_first())
    }
}

/// The words of a text: its longest runs of characters that are no spaces,
/// in order.
pub open spec fn spec_words(text: Seq<char>) -> Seq<Seq<char>>
    decreases text.len(),
{
    if text.len() == 0 {
        seq![]
    } else if spec_is_space(text[0]) {
        spec_words(text.drop_first())
    } else {
        let n = spec_word_len(text) as int;
        if 0 < n <= text.len() {
            seq![text.subrange(0, n)] + spec_words(text.subrange(n, text.len() as int))
        } else {
            seq![]
        }
    }
}

/// A word is never longer than its text, and a text that begins with a
/// character that is no space begins with a word.
proof fn lemma_word_len_bounds(text: Seq<char>)
    ensures
        spec_word_len(text) <= text.len(),
        text.len() > 0 && !spec_is_space(text[0]) ==> spec_word_len(text) > 0,
    decreases text.len(),
{
    if text.len() > 0 && !spec_is_space(text[0]) {
        lemma_word_len_bounds(text.drop_first());
    }
}

/// The length of the word at `from`, counted from a place `k` inside it.
proof fn lemma_word_len_from(text: Seq<char>, from: int, k: int)
    requires
        0 <= from <= k <= text.len(),
        forall|j: int| from <= j < k ==> !spec_is_space(text[j]),
    ensures
        spec_word_len(text.subrange(from, text.len() as int)) == (k - from) + spec_word_len(
            text.subrange(k, text.len() as int),
        ),
    decreases k - from,
{
    if from < k {
        let rest = text.subrange(from, text.len() as int);
        assert(rest[0] == text[from]);
        assert(rest.drop_first() =~= text.subrange(from + 1, text.len() as int));
        lemma_word_len_from(text, from + 1, k);
    }
}

/// The words of a line, as lists of characters.
pub fn split_words(text: &Vec<char>) -> (words: Vec<Vec<char>>)
    ensures
        words@.len() == spec_words(text@).len(),
        forall|i: int| 0 <= i < words@.len() ==> (#[trigger] words@[i])@ == spec_words(text@)[i],
{
    let mut words: Vec<Vec<char>> = Vec::new();
    let ghost mut found: Seq<Seq<char>> = seq![];
    let mut i: usize = 0;
    proof {
        assert(text@.subrange(0, text@.len() as int) =~= text@);
        assert(found + spec_words(text@) =~= spec_words(text@));
    }
    while i < text.len()
        invariant
            0 <= i <= text.len(),
            words@.len() == found.len(),
            forall|k: int| 0 <= k < words@.len() ==> (#[trigger] words@[k])@ == found[k],
            found + spec_words(text@.subrange(i as int, text@.len() as int)) == spec_words(text@),
        decreases text.len() - i,
    {
        let ghost rest = text@.subrange(i as int, text@.len() as int);
        assert(rest[0] == text@[i as int]);
        if is_space(text[i]) {
            assert(rest.drop_first() =~= text@.subrange(i as int + 1, text@.len() as int));
            i += 1;
        } else {
            let start = i;
            let mut word: Vec<char> = Vec::new();
            while i < text.len() && !is_space(text[i])
                invariant
                    start <= i <= text.len(),
                    word@ == text@.subrange(start as int, i as int),
                    forall|j: int| start <= j < i ==> !spec_is_space(text@[j]),
                decreases text.len() - i,
            {
                word.push(text[i]);
                assert(word@ =~= text@.subrange(start as int, i as int + 1));
                i += 1;
            }
            proof {
                lemma_word_len_from(text@, start as int, i as int);
                let tail = text@.subrange(i as int, text@.len() as int);
                assert(spec_word_len(tail) == 0) by {
                    if tail.len() > 0 {
                        assert(tail[0] == text@[i as int]);
                    }
                }
                assert(spec_word_len(rest) == i - start);
                assert(rest.subrange(0, i - start) =~= word@);
                assert(rest.subrange(i - start, rest.len() as int) =~= tail);
                assert(spec_words(rest) == seq![word@] + spec_words(tail));
                assert(found.push(word@) + spec_words(tail) =~= found + spec_words(rest));
                found = found.push(word@);
            }
            words.push(word);
        }
    }
    proof {
        assert(text@.subrange(text@.len() as int, text@.len() as int) =~= Seq::<char>::empty());
        assert(found + Seq::<Seq<char>>::empty() =~= found);
    }
    words
}

/// The number that the decimal digits spell.
pub open spec fn spec_decimal(digits: Seq<char>) -> nat
    decreases digits.len(),
{
    if digits.len() == 0 {
        0
    } else {
        spec_decimal(digits.drop_last()) * 10 + ((digits.last() as u32 - 0x30) as nat)
    }
}

pub open spec fn spec_is_digit(c: char) -> bool {
    0x30 <= c as u32 <= 0x39
}

/// Whether every character is a decimal digit.
pub open spec fn spec_all_digits(digits: Seq<char>) -> bool {
    forall|i: int| 0 <= i < digits.len() ==> spec_is_digit(#[trigger] digits[i])
}

/// The entity id that the digits spell: there is at least one, all are
/// decimal digits, and the number fits an id.
pub open spec fn spec_parse_digits(digits: Seq<char>) -> Option<usize> {
    if digits.len() > 0 && spec_all_digits(digits) && spec_decimal(digits) <= usize::MAX {
        Some(spec_decimal(digits) as usize)
    } else {
        None
    }
}

/// The entity id that a word spells: an optional plus sign and then decimal
/// digits, at least one, of a number that fits an id. Nothing else counts.
pub open spec fn spec_parse_id(word: Seq<char>) -> Option<usize> {
    if word.len() > 0 && word[0] == '+' {
        spec_parse_digits(word.drop_first())
    } else {
        spec_parse_digits(word)
    }
}

/// More digits do not spell a smaller number.
proof fn lemma_decimal_grows(digits: Seq<char>, k: int)
    requires
        0 <= k <= digits.len(),
        spec_all_digits(digits),
    ensures
        spec_decimal(digits.subrange(0, k)) <= spec_decimal(digits),
    decreases digits.len() - k,
{
    if k < digits.len() {
        let shorter = digits.drop_last();
        assert(shorter.subrange(0, k) =~= digits.subrange(0, k));
        lemma_decimal_grows(shorter, k);
    } else {
        assert(digits.subrange(0, k) =~= digits);
    }
}

/// Reads an entity id.
pub fn parse_id(word: &Vec<char>) -> (id: Option<usize>)
    ensures
        id == spec_parse_id(word@),
{
    let start: usize = if word.len() > 0 && word[0] == '+' {
        1
    } else {
        0
    };
    let ghost digits = word@.subrange(start as int, word@.len() as int);
    proof {
        if start == 1 {
            assert(digits =~= word@.drop_first());
        } else {
            assert(digits =~= word@);
        }
    }
    if start >= word.len() {
        return None;
    }
    let mut value: u128 = 0;
    let mut i: usize = start;
    while i < word.len()
        invariant
            start <= i <= word.len(),
            digits == word@.subrange(start as int, word@.len() as int),
            spec_parse_id(word@) == spec_parse_digits(digits),
            digits.len() > 0,
            forall|j: int| 0 <= j < i - start ==> spec_is_digit(#[trigger] digits[j]),
            value == spec_decimal(digits.subrange(0, i - start)),
            value <= usize::MAX,
        decreases word.len() - i,
    {
        let code = word[i] as u32;
        assert(digits[i - start] == word@[i as int]);
        if code < 0x30 || code > 0x39 {
            assert(!spec_is_digit(digits[i - start]));
            return None;
        }
        let ghost read = digits.subrange(0, i - start + 1);
        proof {
            assert(read.drop_last() =~= digits.subrange(0, i - start));
            assert(read.last() == word@[i as int]);
        }
        value = value * 10 + (code - 0x30) as u128;
        assert(value == spec_decimal(read));
        if value > usize::MAX as u128 {
            proof {
                // the digits read so far already spell too large a number
                if spec_all_digits(digits) {
                    lemma_decimal_grows(digits, i - start + 1);
                }
            }
            return None;
        }
        i += 1;
    }
    proof {
        assert(digits.subrange(0, digits.len() as int) =~= digits);
    }
    Some(value as usize)
}

/// What a line can ask of the running program.
#[derive(Debug)]
pub enum ShellCommand {
    /// The line was no command.
    Nothing,
    Exit,
    DeleteEntity(usize),
    /// Save the world under this name.
    Save(Vec<char>),
    /// Load the world of this name.
    Load(Vec<char>),
    DelAll,
    SetPhysPlay(bool),
    Show,
    /// Give the entity a velocity; its two components are still as typed.
    SetVelocity(usize, Vec<char>, Vec<char>),
}

/// What the program answers to a line that it cannot carry out.
#[derive(Clone, Copy, PartialEq, Eq, Debug, Structural)]
pub enum ShellNote {
    SayFilename,
    OnOrOff,
    NotUnderstood,
}

/// What a line leads to: at most one command to carry out and at most one
/// note to show.
#[derive(Debug)]
pub struct ShellReply {
    pub command: Option<ShellCommand>,
    pub note: Option<ShellNote>,
}

/// A command, with its texts as plain sequences of characters.
pub enum ShellCommandView {
    Nothing,
    Exit,
    DeleteEntity(usize),
    Save(Seq<char>),
    Load(Seq<char>),
    DelAll,
    SetPhysPlay(bool),
    Show,
    SetVelocity(usize, Seq<char>, Seq<char>),
}

pub struct ShellReplyView {
    pub command: Option<ShellCommandView>,
    pub note: Option<ShellNote>,
}

impl View for ShellCommand {
    type V = ShellCommandView;

    open spec fn view(&self) -> ShellCommandView {
        match *self {
            ShellCommand::Nothing => ShellCommandView::Nothing,
            ShellCommand::Exit => ShellCommandView::Exit,
            ShellCommand::DeleteEntity(id) => ShellCommandView::DeleteEntity(id),
            ShellCommand::Save(name) => ShellCommandView::Save(name@),
            ShellCommand::Load(name) => ShellCommandView::Load(name@),
            ShellCommand::DelAll => ShellCommandView::DelAll,
            ShellCommand::SetPhysPlay(on) => ShellCommandView::SetPhysPlay(on),
            ShellCommand::Show => ShellCommandView::Show,
            ShellCommand::SetVelocity(id, x, y) => ShellCommandView::SetVelocity(id, x@, y@),
        }
    }
}

impl View for ShellReply {
    type V = ShellReplyView;

    open spec fn view(&self) -> ShellReplyView {
        ShellReplyView {
            command: match self.command {
                Some(c) => Some(c@),
                None => None,
            },
            note: self.note,
        }
    }
}

pub open spec fn spec_silence() -> ShellReplyView {
    ShellReplyView { command: None, note: None }
}

pub open spec fn spec_send(command: ShellCommandView) -> ShellReplyView {
    ShellReplyView { command: Some(command), note: None }
}

pub open spec fn spec_say(note: ShellNote) -> ShellReplyView {
    ShellReplyView { command: None, note: Some(note) }
}

/// What the words of a line ask for.
///
/// The first word names the command, the words after it are its
/// arguments, and words beyond those are ignored. A command whose arguments
/// are missing or cannot be read does nothing, except where a note says
/// what is missing. A first word that names no command is answered with a
/// note and with the command that does nothing.
pub open spec fn spec_parse_words(words: Seq<Seq<char>>) -> ShellReplyView {
    if words.len() == 0 {
        spec_silence()
    } else if words[0] == seq!['e', 'x', 'i', 't'] {
        spec_send(ShellCommandView::Exit)
    } else if words[0] == seq!['d', 'e', 'l'] {
        if words.len() > 1 && spec_parse_id(words[1]) is Some {
            spec_send(ShellCommandView::DeleteEntity(spec_parse_id(words[1])->0))
        } else {
            spec_silence()
        }
    } else if words[0] == seq!['s', 'a', 'v', 'e'] {
        if words.len() > 1 {
            spec_send(ShellCommandView::Save(words[1]))
        } else {
            spec_say(ShellNote::SayFilename)
        }
    } else if words[0] == seq!['l', 'o', 'a', 'd'] {
        if words.len() > 1 {
            spec_send(ShellCommandView::Load(words[1]))
        } else {
            spec_say(ShellNote::SayFilename)
        }
    } else if words[0] == seq!['c', 'l', 'e', 'a', 'r'] {
        spec_send(ShellCommandView::DelAll)
    } else if words[0] == seq!['p', 'h', 'y', 's'] {
        if words.len() <= 1 {
            spec_silence()
        } else if words[1] == seq!['o', 'n'] {
            spec_send(ShellCommandView::SetPhysPlay(true))
        } else if words[1] == seq!['o', 'f', 'f'] {
            spec_send(ShellCommandView::SetPhysPlay(false))
        } else {
            spec_say(ShellNote::OnOrOff)
        }
    } else if words[0] == seq!['s', 'e', 't', 'v', 'e', 'l'] {
        if words.len() > 3 && spec_parse_id(words[1]) is Some {
            spec_send(
                ShellCommandView::SetVelocity(spec_parse_id(words[1])->0, words[2], words[3]),
            )
        } else {
            spec_silence()
        }
    } else {
        ShellReplyView {
            command: Some(ShellCommandView::Nothing),
            note: Some(ShellNote::NotUnderstood),
        }
    }
}

/// What a typed line asks for.
pub open spec fn spec_parse_input(input: Seq<char>) -> ShellReplyView {
    spec_parse_words(spec_words(input))
}

/// Whether the word is spelled like `letters`.
fn spells(word: &Vec<char>, letters: &[char]) -> (same: bool)
    ensures
        same == (word@ == letters@),
{
    if word.len() != letters.len() {
        return false;
    }
    let mut i: usize = 0;
    while i < word.len()
        invariant
            0 <= i <= word.len(),
            word.len() == letters.len(),
            forall|j: int| 0 <= j < i ==> word@[j] == letters@[j],
        decreases word.len() - i,
    {
        if word[i] != letters[i] {
            return false;
        }
        i += 1;
    }
    assert(word@ =~= letters@);
    true
}

fn silence() -> (reply: ShellReply)
    ensures
        reply@ == spec_silence(),
{
    ShellReply { command: None, note: None }
}

fn send(command: ShellCommand) -> (reply: ShellReply)
    ensures
        reply@ == spec_send(command@),
{
    ShellReply { command: Some(command), note: None }
}

fn say(note: ShellNote) -> (reply: ShellReply)
    ensures
        reply@ == spec_say(note),
{
    ShellReply { command: None, note: Some(note) }
}

/// Reads a typed line.
pub fn parse_input(input: &Vec<char>) -> (reply: ShellReply)
    ensures
        reply@ == spec_parse_input(input@),
{
    let words = split_words(input);
    let ghost spoken = spec_words(input@);
    if words.len() == 0 {
        return silence();
    }
    let command = &words[0];
    assert(command@ == spoken[0]);
    if spells(command, &['e', 'x', 'i', 't']) {
        send(ShellCommand::Exit)
    } else if spells(command, &['d', 'e', 'l']) {
        if words.len() > 1 {
            assert(words@[1]@ == spoken[1]);
            match parse_id(&words[1]) {
                Some(id) => send(ShellCommand::DeleteEntity(id)),
                None => silence(),
            }
        } else {
            silence()
        }
    } else if spells(command, &['s', 'a', 'v', 'e']) {
        if words.len() > 1 {
            assert(words@[1]@ == spoken[1]);
            send(ShellCommand::Save(copy_list(&words[1])))
        } else {
            say(ShellNote::SayFilename)
        }
    } else if spells(command, &['l', 'o', 'a', 'd']) {
        if words.len() > 1 {
            assert(words@[1]@ == spoken[1]);
            send(ShellCommand::Load(copy_list(&words[1])))
        } else {
            say(ShellNote::SayFilename)
        }
    } else if spells(command, &['c', 'l', 'e', 'a', 'r']) {
        send(ShellCommand::DelAll)
    } else if spells(command, &['p', 'h', 'y', 's']) {
        if words.len() <= 1 {
            silence()
        } else {
            assert(words@[1]@ == spoken[1]);
            if spells(&words[1], &['o', 'n']) {
                send(ShellCommand::SetPhysPlay(true))
            } else if spells(&words[1], &['o', 'f', 'f']) {
                send(ShellCommand::SetPhysPlay(false))
            } else {
                say(ShellNote::OnOrOff)
            }
        }
    } else if spells(command, &['s', 'e', 't', 'v', 'e', 'l']) {
        if words.len() > 3 {
            assert(words@[1]@ == spoken[1]);
            assert(words@[2]@ == spoken[2]);
            assert(words@[3]@ == spoken[3]);
            match parse_id(&words[1]) {
                Some(id) => send(
                    ShellCommand::SetVelocity(id, copy_list(&words[2]), copy_list(&words[3])),
                ),
                None => silence(),
            }
        } else {
            silence()
        }
    } else {
        ShellReply { command: Some(ShellCommand::Nothing), note: Some(ShellNote::NotUnderstood) }
    }
}

} // verus!
