//! The setup command of a template.

use crate::text::{chars_of, string_views};
use vstd::prelude::*;
use vstd::string::StrSliceExecFns;

verus! {

/// The character is white space: it has the Unicode property `White_Space`.
pub open spec fn is_space(c: char) -> bool {
    let code = c as u32;
    ||| 0x09 <= code <= 0x0D
    ||| code == 0x20
    ||| code == 0x85
    ||| code == 0xA0
    ||| code == 0x1680
    ||| 0x2000 <= code <= 0x200A
    ||| code == 0x2028
    ||| code == 0x2029
    ||| code == 0x202F
    ||| code == 0x205F
    ||| code == 0x3000
}

/// Whether the character is white space.
pub fn char_is_space(c: char) -> (space: bool)
    ensures
        space == is_space(c),
{
    let code: u32 = c as u32;
    (0x09 <= code && code <= 0x0D) || code == 0x20 || code == 0x85 || code == 0xA0 || code == 0x1680
        || (0x2000 <= code && code <= 0x200A) || code == 0x2028 || code == 0x2029 || code == 0x202F
        || code == 0x205F || code == 0x3000
}

/// The words of `text`: its maximal runs of characters that are not white
/// space, in their order.
pub open spec fn words(text: Seq<char>) -> Seq<Seq<char>>
    decreases text.len(),
{
    if text.len() == 0 {
        Seq::empty()
    } else if is_space(text.last()) {
        words(text.drop_last())
    } else if text.len() >= 2 && !is_space(text[text.len() - 2]) {
        let before = words(text.drop_last());
        before.drop_last().push(before.last().push(text.last()))
    } else {
        words(text.drop_last()).push(seq![text.last()])
    }
}

/// The strings of `parts`, written one after the other.
pub open spec fn joined(parts: Seq<Seq<char>>) -> Seq<char>
    decreases parts.len(),
{
    if parts.len() == 0 {
        Seq::empty()
    } else {
        joined(parts.drop_last()) + parts.last()
    }
}

/// No word is empty, no word holds white space, and a text that does not
/// end in white space ends in its last word.
pub proof fn law_words_hold_no_space(text: Seq<char>)
    ensures
        forall|i: int|
            0 <= i < words(text).len() ==> (#[trigger] words(text)[i]).len() > 0 && forall|j: int|
                0 <= j < words(text)[i].len() ==> !is_space(#[trigger] words(text)[i][j]),
        text.len() > 0 && !is_space(text.last()) ==> words(text).len() > 0 && words(
            text,
        ).last().last() == text.last(),
    decreases text.len(),
{
    if text.len() > 0 {
        let rest = text.drop_last();
        law_words_hold_no_space(rest);
        if !is_space(text.last()) && text.len() >= 2 && !is_space(text[text.len() - 2]) {
            assert(rest.last() == text[text.len() - 2]);
            let before = words(rest);
            let grown = before.last().push(text.last());
            let all = before.drop_last().push(grown);
            assert(words(text) == all);
            assert forall|i: int| 0 <= i < all.len() implies (#[trigger] all[i]).len() > 0 && forall|
                j: int,
            |
                0 <= j < all[i].len() ==> !is_space(#[trigger] all[i][j]) by {
                if i < all.len() - 1 {
                    assert(all[i] == before[i]);
                } else {
                    assert forall|j: int| 0 <= j < grown.len() implies !is_space(
                        #[trigger] grown[j],
                    ) by {
                        if j < grown.len() - 1 {
                            assert(grown[j] == before[before.len() - 1][j]);
                        }
                    }
                }
            }
        }
    }
}

/// The words of a text, written one after the other, are the text without
/// its white space: splitting loses nothing else and reorders nothing.
pub proof fn law_words_keep_the_text(text: Seq<char>)
    ensures
        joined(words(text)) == text.filter(|c: char| !is_space(c)),
    decreases text.len(),
{
    let keep = |c: char| !is_space(c);
    reveal(Seq::filter);
    if text.len() > 0 {
        let rest = text.drop_last();
        law_words_keep_the_text(rest);
        law_words_hold_no_space(rest);
        if !is_space(text.last()) {
            if text.len() >= 2 && !is_space(text[text.len() - 2]) {
                assert(rest.last() == text[text.len() - 2]);
                let before = words(rest);
                let grown = before.last().push(text.last());
                let all = before.drop_last().push(grown);
                assert(all.drop_last() =~= before.drop_last());
                assert(joined(all) =~= joined(before).push(text.last()));
            } else {
                let all = words(rest).push(seq![text.last()]);
                assert(all.drop_last() =~= words(rest));
                assert(joined(all) =~= joined(words(rest)).push(text.last()));
            }
        }
    } else {
        assert(joined(words(text)) =~= text.filter(keep));
    }
}

/// A command line, split into the program and its arguments.
pub struct Command {
    pub program: String,
    pub args: Vec<String>,
}

/// A command line as plain mathematical values.
pub struct CommandModel {
    pub program: Seq<char>,
    pub args: Seq<Seq<char>>,
}

impl View for Command {
    type V = CommandModel;

    open spec fn view(&self) -> CommandModel {
        CommandModel { program: self.program@, args: string_views(self.args@) }
    }
}

/// The command that `line` spells out: its first word is the program, the
/// words after it are the arguments. A line without a word is no command.
pub open spec fn command_of(line: Seq<char>) -> Option<CommandModel> {
    let all = words(line);
    if all.len() == 0 {
        None
    } else {
        Some(CommandModel { program: all[0], args: all.skip(1) })
    }
}

/// The words of `line`.
pub fn split_words(line: &String) -> (out: Vec<String>)
    ensures
        string_views(out@) == words(line@),
{
    let text = line.as_str();
    let chars = chars_of(text);
    let n = chars.len();
    let mut done: Vec<String> = Vec::new();
    let mut start: usize = 0;
    let mut i: usize = 0;
    assert(chars@.take(0) =~= Seq::<char>::empty());
    assert(string_views(done@) =~= Seq::<Seq<char>>::empty());
    while i < n
        invariant
            i <= n,
            n == chars@.len(),
            chars@ == text@,
            start <= i,
            i > 0 && !is_space(chars@[i - 1]) ==> start < i && words(chars@.take(i as int))
                == string_views(done@).push(chars@.subrange(start as int, i as int)),
            i > 0 && !is_space(chars@[i - 1]) ==> forall|j: int|
                start <= j < i ==> !is_space(chars@[j]),
            i == 0 || is_space(chars@[i - 1]) ==> words(chars@.take(i as int)) == string_views(
                done@,
            ),
        decreases n - i,
    {
        let ghost prefix = chars@.take(i as int);
        let ghost next = chars@.take(i as int + 1);
        assert(next.drop_last() =~= prefix);
        assert(next.last() == chars@[i as int]);
        let in_word = i > 0 && !char_is_space(chars[i - 1]);
        if char_is_space(chars[i]) {
            if in_word {
                let ghost before = done@;
                let word = text.substring_char(start, i).to_owned();
                done.push(word);
                assert(string_views(done@) =~= string_views(before).push(word@));
            }
        } else {
            if in_word {
                assert(next[next.len() - 2] == chars@[i - 1]);
                assert(string_views(done@).push(chars@.subrange(start as int, i as int)).drop_last()
                    =~= string_views(done@));
                assert(chars@.subrange(start as int, i as int).push(chars@[i as int])
                    =~= chars@.subrange(start as int, i as int + 1));
            } else {
                if i > 0 {
                    assert(next[next.len() - 2] == chars@[i - 1]);
                }
                start = i;
                assert(seq![chars@[i as int]] =~= chars@.subrange(start as int, i as int + 1));
            }
        }
        i += 1;
    }
    assert(chars@.take(n as int) =~= chars@);
    if n > 0 && !char_is_space(chars[n - 1]) {
        let ghost before = done@;
        let word = text.substring_char(start, n).to_owned();
        done.push(word);
        assert(string_views(done@) =~= string_views(before).push(word@));
    }
    done
}

/// Splits a command line on white space into the program and its
/// arguments; `None` where the line is empty or blank.
pub fn split_command(line: &String) -> (command: Option<Command>)
    ensures
        match command {
            Some(c) => command_of(line@) == Some(c@),
            None => command_of(line@) is None,
        },
{
    let mut all = split_words(line);
    if all.len() == 0 {
        return None;
    }
    let ghost before = all@;
    let program = all.remove(0);
    assert(string_views(all@) =~= string_views(before).skip(1));
    Some(Command { program, args: all })
}

} // verus!
