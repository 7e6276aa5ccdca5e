//! Parsing one line of user input.
//!
//! A line is trimmed of surrounding whitespace and read as a command:
//! the reserved single characters `n`, `p` and `q` (case-insensitive)
//! navigate or quit, any other non-empty text is a label. The reserved
//! readings take precedence, so a label literally named `n`, `p` or `q`
//! cannot be entered.

use vstd::prelude::*;

verus! {

/// One parsed line of input during navigation.
#[derive(Debug, PartialEq, Eq)]
pub enum UserCommand {
    Quit,
    NextImage,
    PreviousImage,
    Label(String),
}

/// One parsed line of input at the startup confirmation prompt.
#[derive(Debug, Clone, Copy, PartialEq, Eq, Structural)]
pub enum Confirmation {
    Yes,
    No,
    Invalid,
}

/// The whitespace characters stripped from the ends of a line: the
/// Unicode `White_Space` set, as `char::is_whitespace` has it — tab
/// through carriage return, space, next line, no-break space, ogham
/// space mark, en quad through hair space, the line and paragraph
/// separators, the narrow no-break and medium mathematical spaces, and
/// the ideographic space.
pub open spec fn is_space(c: char) -> bool {
    let u = c as u32;
    ||| (9 <= u && u <= 13)
    ||| u == 32
    ||| u == 0x85
    ||| u == 0xA0
    ||| u == 0x1680
    ||| (0x2000 <= u && u <= 0x200A)
    ||| u == 0x2028
    ||| u == 0x2029
    ||| u == 0x202F
    ||| u == 0x205F
    ||| u == 0x3000
}

/// `s` with leading whitespace removed.
pub open spec fn trim_front(s: Seq<char>) -> Seq<char>
    decreases s.len(),
{
    if s.len() > 0 && is_space(s[0]) {
        trim_front(s.subrange(1, s.len() as int))
    } else {
        s
    }
}

/// `s` with trailing whitespace removed.
pub open spec fn trim_back(s: Seq<char>) -> Seq<char>
    decreases s.len(),
{
    if s.len() > 0 && is_space(s[s.len() - 1]) {
        trim_back(s.drop_last())
    } else {
        s
    }
}

/// `s` with whitespace removed from both ends.
pub open spec fn trimmed(s: Seq<char>) -> Seq<char> {
    trim_back(trim_front(s))
}

proof fn lemma_trim_front_at(s: Seq<char>, a: int)
    requires
        0 <= a <= s.len(),
        forall|t: int| 0 <= t < a ==> is_space(#[trigger] s[t]),
        a < s.len() ==> !is_space(s[a]),
    ensures
        trim_front(s) == s.subrange(a, s.len() as int),
    decreases a,
{
    if a == 0 {
        assert(s.subrange(0, s.len() as int) =~= s);
    } else {
        let s1 = s.subrange(1, s.len() as int);
        assert(forall|t: int| 0 <= t < a - 1 ==> is_space(#[trigger] s1[t]));
        lemma_trim_front_at(s1, a - 1);
        assert(s1.subrange(a - 1, s1.len() as int) =~= s.subrange(a, s.len() as int));
    }
}

proof fn lemma_trim_back_at(s: Seq<char>, b: int)
    requires
        0 <= b <= s.len(),
        forall|t: int| b <= t < s.len() ==> is_space(#[trigger] s[t]),
        b > 0 ==> !is_space(s[b - 1]),
    ensures
        trim_back(s) == s.subrange(0, b),
    decreases s.len(),
{
    if b == s.len() {
        assert(s.subrange(0, b) =~= s);
    } else {
        let s1 = s.drop_last();
        assert(s1 =~= s.subrange(0, s.len() - 1));
        assert(forall|t: int| b <= t < s1.len() ==> is_space(#[trigger] s1[t]));
        lemma_trim_back_at(s1, b);
        assert(s1.subrange(0, b) =~= s.subrange(0, b));
    }
}

fn is_space_exec(c: char) -> (r: bool)
    ensures
        r == is_space(c),
{
    let u = c as u32;
    (9 <= u && u <= 13) || u == 32 || u == 0x85 || u == 0xA0 || u == 0x1680 || (0x2000 <= u && u
        <= 0x200A) || u == 0x2028 || u == 0x2029 || u == 0x202F || u == 0x205F || u == 0x3000
}

/// The line with surrounding whitespace removed.
pub fn trim(s: &str) -> (r: &str)
    requires
        s@.len() <= usize::MAX,
    ensures
        r@ == trimmed(s@),
{
    let n = s.unicode_len();
    let mut a: usize = 0;
    while a < n && is_space_exec(s.get_char(a))
        invariant
            a <= n,
            n == s@.len(),
            forall|t: int| 0 <= t < a ==> is_space(#[trigger] s@[t]),
        decreases n - a,
    {
        a += 1;
    }
    let mut b: usize = n;
    while b > a && is_space_exec(s.get_char(b - 1))
        invariant
            a <= b <= n,
            n == s@.len(),
            forall|t: int| b <= t < n ==> is_space(#[trigger] s@[t]),
        decreases b,
    {
        b -= 1;
    }
    proof {
        lemma_trim_front_at(s@, a as int);
        let sf = s@.subrange(a as int, n as int);
        assert(forall|t: int| b - a <= t < sf.len() ==> is_space(#[trigger] sf[t]));
        lemma_trim_back_at(sf, b - a);
        assert(sf.subrange(0, b - a) =~= s@.subrange(a as int, b as int));
    }
    s.substring_char(a, b)
}

/// The trimmed line is the single character `n`, in either case.
pub open spec fn is_next_word(t: Seq<char>) -> bool {
    t == seq!['n'] || t == seq!['N']
}

/// The trimmed line is the single character `p`, in either case.
pub open spec fn is_prev_word(t: Seq<char>) -> bool {
    t == seq!['p'] || t == seq!['P']
}

/// The trimmed line is the single character `q`, in either case.
pub open spec fn is_quit_word(t: Seq<char>) -> bool {
    t == seq!['q'] || t == seq!['Q']
}

/// Parses one line of input at the navigation prompt. After trimming,
/// an empty line is no command (`None`), the reserved characters `n`,
/// `p` and `q` (either case) navigate or quit, and anything else is the
/// label, as entered. The reserved readings always win over a label.
pub fn parse_command(input: &str) -> (r: Option<UserCommand>)
    requires
        input@.len() <= usize::MAX,
    ensures
        ({
            let t = trimmed(input@);
            match r {
                None => t.len() == 0,
                Some(UserCommand::NextImage) => is_next_word(t),
                Some(UserCommand::PreviousImage) => is_prev_word(t),
                Some(UserCommand::Quit) => is_quit_word(t),
                Some(UserCommand::Label(l)) => {
                    &&& l@ == t
                    &&& t.len() > 0
                    &&& !is_next_word(t)
                    &&& !is_prev_word(t)
                    &&& !is_quit_word(t)
                },
            }
        }),
{
    let t = trim(input);
    let n = t.unicode_len();
    if n == 0 {
        return None;
    }
    if n == 1 {
        let c = t.get_char(0);
        proof {
            assert(t@ =~= seq![c]);
        }
        if c == 'n' || c == 'N' {
            return Some(UserCommand::NextImage);
        }
        if c == 'p' || c == 'P' {
            return Some(UserCommand::PreviousImage);
        }
        if c == 'q' || c == 'Q' {
            return Some(UserCommand::Quit);
        }
        proof {
            assert(!is_next_word(t@) && !is_prev_word(t@) && !is_quit_word(t@)) by {
                assert(t@[0] == c);
            }
        }
    } else {
        proof {
            assert(!is_next_word(t@) && !is_prev_word(t@) && !is_quit_word(t@)) by {
                assert(t@.len() != 1);
            }
        }
    }
    Some(UserCommand::Label(t.to_owned()))
}

/// The trimmed line is the single character `y`, in either case.
pub open spec fn is_yes_word(t: Seq<char>) -> bool {
    t == seq!['y'] || t == seq!['Y']
}

/// The trimmed line is the single character `n`, in either case.
pub open spec fn is_no_word(t: Seq<char>) -> bool {
    t == seq!['n'] || t == seq!['N']
}

/// Parses one line of input at the startup confirmation prompt: `y`
/// continues, `n` declines, anything else (after trimming, either case)
/// is invalid and asked again.
pub fn parse_confirmation(input: &str) -> (r: Confirmation)
    requires
        input@.len() <= usize::MAX,
    ensures
        ({
            let t = trimmed(input@);
            match r {
                Confirmation::Yes => is_yes_word(t),
                Confirmation::No => is_no_word(t),
                Confirmation::Invalid => !is_yes_word(t) && !is_no_word(t),
            }
        }),
{
    let t = trim(input);
    let n = t.unicode_len();
    if n == 1 {
        let c = t.get_char(0);
        proof {
            assert(t@ =~= seq![c]);
        }
        if c == 'y' || c == 'Y' {
            return Confirmation::Yes;
        }
        if c == 'n' || c == 'N' {
            return Confirmation::No;
        }
        proof {
            assert(!is_yes_word(t@) && !is_no_word(t@)) by {
                assert(t@[0] == c);
            }
        }
        Confirmation::Invalid
    } else {
        proof {
            assert(!is_yes_word(t@) && !is_no_word(t@)) by {
                assert(t@.len() != 1);
            }
        }
        Confirmation::Invalid
    }
}

} // verus!
