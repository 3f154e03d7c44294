use vstd::prelude::*;
use vstd::string::*;

use crate::text::push_char;

verus! {

/// Why a command line could not be split.
#[derive(Debug)]
pub enum Error {
    /// A backslash followed by something other than `n`, `t`, `\` or `"`
    /// (or by nothing); holds the backslash and what followed it.
    IllegalEscapeChar(String),
    /// A quotation mark that is never closed.
    UnbalancedQuote,
}

pub enum ErrorView {
    IllegalEscapeChar(Seq<char>),
    UnbalancedQuote,
}

impl View for Error {
    type V = ErrorView;

    open spec fn view(&self) -> ErrorView {
        match self {
            Error::IllegalEscapeChar(s) => ErrorView::IllegalEscapeChar(s@),
            Error::UnbalancedQuote => ErrorView::UnbalancedQuote,
        }
    }
}

/// The characters with the Unicode `White_Space` property.
pub open spec fn is_space_spec(c: char) -> bool {
    c == '\t' || c == '\n' || c == '\u{b}' || c == '\u{c}' || c == '\r' || c == ' ' || c == '\u{85}'
        || c == '\u{a0}' || c == '\u{1680}' || ('\u{2000}' <= c && c <= '\u{200a}') || c
        == '\u{2028}' || c == '\u{2029}' || c == '\u{202f}' || c == '\u{205f}' || c == '\u{3000}'
}

/// Whether `c` is white space, as `char::is_whitespace` defines it.
pub fn is_space(c: char) -> (r: bool)
    ensures
        r == is_space_spec(c),
{
    c == '\t' || c == '\n' || c == '\u{b}' || c == '\u{c}' || c == '\r' || c == ' ' || c == '\u{85}'
        || c == '\u{a0}' || c == '\u{1680}' || ('\u{2000}' <= c && c <= '\u{200a}') || c
        == '\u{2028}' || c == '\u{2029}' || c == '\u{202f}' || c == '\u{205f}' || c == '\u{3000}'
}

/// What an escape sequence `\c` stands for, if it is one.
pub open spec fn escaped(c: char) -> Option<char> {
    if c == 'n' {
        Some('\n')
    } else if c == 't' {
        Some('\t')
    } else if c == '\\' {
        Some('\\')
    } else if c == '"' {
        Some('"')
    } else {
        None
    }
}

/// Splitting `s` from position `i` on: `args` are the arguments finished so
/// far, `cur` the one being read (none between arguments), `quoted`
/// whether a quotation is open.
pub open spec fn split_from(
    s: Seq<char>,
    i: int,
    args: Seq<Seq<char>>,
    cur: Option<Seq<char>>,
    quoted: bool,
) -> Result<Seq<Seq<char>>, ErrorView>
    decreases s.len() - i,
{
    if i < 0 || i >= s.len() {
        match cur {
            None => Ok(args),
            Some(a) => if quoted {
                Err(ErrorView::UnbalancedQuote)
            } else {
                Ok(args.push(a))
            },
        }
    } else {
        let c = s[i];
        if cur is None && is_space_spec(c) {
            split_from(s, i + 1, args, None, false)
        } else {
            let a = match cur {
                Some(a) => a,
                None => Seq::empty(),
            };
            if c == '"' {
                split_from(s, i + 1, args, Some(a), !quoted)
            } else if c == '\\' {
                if i + 1 >= s.len() {
                    Err(ErrorView::IllegalEscapeChar(seq!['\\']))
                } else {
                    match escaped(s[i + 1]) {
                        Some(e) => split_from(s, i + 2, args, Some(a.push(e)), quoted),
                        None => Err(ErrorView::IllegalEscapeChar(seq!['\\', s[i + 1]])),
                    }
                }
            } else if is_space_spec(c) && !quoted {
                split_from(s, i + 1, args.push(a), None, false)
            } else {
                split_from(s, i + 1, args, Some(a.push(c)), quoted)
            }
        }
    }
}

/// The arguments of a command line, after the program name `(wispha)`.
pub open spec fn to_args_spec(s: Seq<char>) -> Result<Seq<Seq<char>>, ErrorView> {
    split_from(s, 0, seq!["(wispha)"@], None, false)
}

/// The views of a list of strings.
pub open spec fn views(v: Seq<String>) -> Seq<Seq<char>> {
    v.map_values(|a: String| a@)
}

/// Splits a command line into arguments: white space separates them, a
/// quotation mark opens or closes a quoted stretch in which white space is
/// kept, and `\n`, `\t`, `\\`, `\"` stand for their characters. The first
/// argument is the program name `(wispha)`.
pub fn to_args(input: &String) -> (r: Result<Vec<String>, Error>)
    ensures
        match r {
            Ok(v) => to_args_spec(input@) == Ok::<Seq<Seq<char>>, ErrorView>(views(v@)),
            Err(e) => to_args_spec(input@) == Err::<Seq<Seq<char>>, ErrorView>(e@),
        },
{
    let s = input.as_str();
    let n = s.unicode_len();
    let mut args: Vec<String> = Vec::new();
    args.push(String::from_str("(wispha)"));
    assert(views(args@) =~= seq!["(wispha)"@]);
    let mut cur = String::new();
    let mut reading = false;
    let mut quoted = false;
    let mut i: usize = 0;
    while i < n
        invariant
            n == input@.len(),
            s@ == input@,
            i <= n,
            !reading ==> !quoted,
            to_args_spec(input@) == split_from(
                input@,
                i as int,
                views(args@),
                if reading {
                    Some(cur@)
                } else {
                    None
                },
                quoted,
            ),
        decreases n - i,
    {
        let c = s.get_char(i);
        if !reading && is_space(c) {
            i = i + 1;
        } else {
            if !reading {
                cur = String::new();
                reading = true;
            }
            if c == '"' {
                quoted = !quoted;
                i = i + 1;
            } else if c == '\\' {
                if i + 1 >= n {
                    let mut e = String::new();
                    push_char(&mut e, '\\');
                    assert(e@ =~= seq!['\\']);
                    return Err(Error::IllegalEscapeChar(e));
                }
                let d = s.get_char(i + 1);
                let x: char = if d == 'n' {
                    '\n'
                } else if d == 't' {
                    '\t'
                } else if d == '\\' {
                    '\\'
                } else if d == '"' {
                    '"'
                } else {
                    let mut e = String::new();
                    push_char(&mut e, '\\');
                    push_char(&mut e, d);
                    assert(e@ =~= seq!['\\', d]);
                    return Err(Error::IllegalEscapeChar(e));
                };
                push_char(&mut cur, x);
                i = i + 2;
            } else if is_space(c) && !quoted {
                let ghost before = args@;
                args.push(cur);
                assert(views(args@) =~= views(before).push(cur@));
                cur = String::new();
                reading = false;
                i = i + 1;
            } else {
                push_char(&mut cur, c);
                i = i + 1;
            }
        }
    }
    if reading {
        if quoted {
            return Err(Error::UnbalancedQuote);
        }
        let ghost before = args@;
        args.push(cur);
        assert(views(args@) =~= views(before).push(cur@));
    }
    Ok(args)
}

} // verus!
