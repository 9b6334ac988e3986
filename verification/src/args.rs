//! The command-line tokens that set variables: `--name=value` and
//! `--name value`.

use crate::text::{chars_of, string_views};
use crate::variables::Variables;
use vstd::prelude::*;
use vstd::string::StrSliceExecFns;

verus! {

/// What one command-line token is.
pub enum TokenModel {
    /// `--name=value`: a name and its value in one token.
    Pair(Seq<char>, Seq<char>),
    /// `--name`: a name whose value is the next token.
    Name(Seq<char>),
    /// Anything else.
    Plain,
}

/// `at` is the least index at which `text` holds `c`.
pub open spec fn is_first_char(text: Seq<char>, c: char, at: int) -> bool {
    &&& 0 <= at < text.len()
    &&& text[at] == c
    &&& forall|j: int| 0 <= j < at ==> text[j] != c
}

/// What follows the two hyphens of a token, read: the part before the first
/// `=` is the name and the part after it the value; where there is no `=`,
/// all of it is the name.
pub open spec fn read_flag(flag: Seq<char>) -> TokenModel {
    if exists|at: int| is_first_char(flag, '=', at) {
        let at = choose|at: int| is_first_char(flag, '=', at);
        TokenModel::Pair(flag.subrange(0, at), flag.subrange(at + 1, flag.len() as int))
    } else {
        TokenModel::Name(flag)
    }
}

/// What the token is: one that begins with two hyphens is read as
/// [`read_flag`] says, any other is plain.
pub open spec fn read_token(token: Seq<char>) -> TokenModel {
    if token.len() >= 2 && token[0] == '-' && token[1] == '-' {
        read_flag(token.skip(2))
    } else {
        TokenModel::Plain
    }
}

/// The variables with `name` set to `value` if `name` is one of them, and
/// unchanged if it is not.
pub open spec fn set_known(
    vars: Map<Seq<char>, Seq<char>>,
    name: Seq<char>,
    value: Seq<char>,
) -> Map<Seq<char>, Seq<char>> {
    if vars.contains_key(name) {
        vars.insert(name, value)
    } else {
        vars
    }
}

/// The variables after the tokens from index `from` on were read, left to
/// right: a pair sets its name, a lone name takes the token after it as its
/// value and uses it up, a lone name at the very end and a plain token do
/// nothing. Only names that are among the variables are set.
pub open spec fn bind_args(
    vars: Map<Seq<char>, Seq<char>>,
    args: Seq<Seq<char>>,
    from: int,
) -> Map<Seq<char>, Seq<char>>
    decreases args.len() - from,
{
    if from < 0 || from >= args.len() {
        vars
    } else {
        match read_token(args[from]) {
            TokenModel::Pair(name, value) => bind_args(set_known(vars, name, value), args, from + 1),
            TokenModel::Name(name) => if from + 1 < args.len() {
                bind_args(set_known(vars, name, args[from + 1]), args, from + 2)
            } else {
                vars
            },
            TokenModel::Plain => bind_args(vars, args, from + 1),
        }
    }
}

/// Reading tokens adds no variable and removes none.
pub proof fn lemma_bind_args_keeps_names(
    vars: Map<Seq<char>, Seq<char>>,
    args: Seq<Seq<char>>,
    from: int,
)
    ensures
        bind_args(vars, args, from).dom() == vars.dom(),
    decreases args.len() - from,
{
    if 0 <= from < args.len() {
        match read_token(args[from]) {
            TokenModel::Pair(name, value) => {
                lemma_bind_args_keeps_names(set_known(vars, name, value), args, from + 1);
                assert(set_known(vars, name, value).dom() =~= vars.dom());
            },
            TokenModel::Name(name) => {
                if from + 1 < args.len() {
                    lemma_bind_args_keeps_names(
                        set_known(vars, name, args[from + 1]),
                        args,
                        from + 2,
                    );
                    assert(set_known(vars, name, args[from + 1]).dom() =~= vars.dom());
                }
            },
            TokenModel::Plain => {
                lemma_bind_args_keeps_names(vars, args, from + 1);
            },
        }
    }
}

/// One command-line token, read.
pub enum Token {
    Pair(String, String),
    Name(String),
    Plain,
}

impl View for Token {
    type V = TokenModel;

    open spec fn view(&self) -> TokenModel {
        match self {
            Token::Pair(name, value) => TokenModel::Pair(name@, value@),
            Token::Name(name) => TokenModel::Name(name@),
            Token::Plain => TokenModel::Plain,
        }
    }
}

/// Reads one command-line token.
pub fn parse_token(token: &String) -> (read: Token)
    ensures
        read@ == read_token(token@),
{
    let text = token.as_str();
    let chars = chars_of(text);
    let n = chars.len();
    if n < 2 || chars[0] != '-' || chars[1] != '-' {
        return Token::Plain;
    }
    let mut at: usize = 2;
    while at < n
        invariant
            2 <= at <= n,
            n == chars@.len(),
            chars@ == text@,
            text@ == token@,
            chars@[0] == '-' && chars@[1] == '-',
            forall|j: int| 2 <= j < at ==> chars@[j] != '=',
        decreases n - at,
    {
        if chars[at] == '=' {
            let ghost flag = chars@.skip(2);
            assert(is_first_char(flag, '=', at - 2)) by {
                assert forall|j: int| 0 <= j < at - 2 implies flag[j] != '=' by {
                    assert(flag[j] == chars@[j + 2]);
                }
            }
            let name = text.substring_char(2, at).to_owned();
            let value = text.substring_char(at + 1, n).to_owned();
            assert(name@ =~= flag.subrange(0, at - 2));
            assert(value@ =~= flag.subrange(at - 2 + 1, flag.len() as int));
            return Token::Pair(name, value);
        }
        at += 1;
    }
    let ghost flag = chars@.skip(2);
    assert forall|p: int| !is_first_char(flag, '=', p) by {
        if is_first_char(flag, '=', p) {
            assert(flag[p] == chars@[p + 2]);
        }
    }
    let name = text.substring_char(2, n).to_owned();
    assert(name@ =~= flag);
    Token::Name(name)
}

/// Reads the command-line tokens `args` into the variables `vars`: see
/// [`bind_args`]. A token sets a variable only if the template declares it;
/// no variable is added.
pub fn collect_args(vars: &mut Variables, args: &Vec<String>)
    ensures
        final(vars)@ == bind_args(old(vars)@, string_views(args@), 0),
        final(vars)@.dom() == old(vars)@.dom(),
{
    let ghost tokens = string_views(args@);
    let mut i: usize = 0;
    while i < args.len()
        invariant
            i <= args.len(),
            tokens == string_views(args@),
            bind_args(vars@, tokens, i as int) == bind_args(old(vars)@, tokens, 0),
        decreases args.len() - i,
    {
        assert(tokens[i as int] == args@[i as int]@);
        match parse_token(&args[i]) {
            Token::Pair(name, value) => {
                if vars.contains_key(&name) {
                    vars.insert(name, value);
                }
            },
            Token::Name(name) => {
                if i + 1 < args.len() {
                    assert(tokens[i as int + 1] == args@[i as int + 1]@);
                    if vars.contains_key(&name) {
                        vars.insert(name, args[i + 1].clone());
                    }
                    i += 1;
                }
            },
            Token::Plain => {},
        }
        i += 1;
    }
    proof {
        lemma_bind_args_keeps_names(old(vars)@, tokens, 0);
    }
}

} // verus!
