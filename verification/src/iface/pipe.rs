//! Packets on the standard streams of another program.

use vstd::prelude::*;
use vstd::string::*;

use crate::error::RnsError;
use crate::iface::lifecycle;
use crate::iface::lifecycle::{Lifecycle, Medium};
use crate::iface::Interface;
use crate::text;

verus! {

/// The longest frame.
pub const HW_MTU: usize = 1064;

/// Wait before a program that has ended is started again, in nanoseconds.
pub const DEFAULT_RESPAWN_DELAY: u64 = 5_000_000_000;

/// How far the splitting of a command has come.
#[verifier::ext_equal]
pub struct SplitView {
    pub args: Seq<Seq<char>>,
    pub current: Seq<char>,
    pub in_single: bool,
    pub in_double: bool,
    pub escaped: bool,
    /// Whether an argument has begun.
    pub has_token: bool,
}

/// Nothing read yet.
pub open spec fn split_start() -> SplitView {
    SplitView {
        args: Seq::empty(),
        current: Seq::empty(),
        in_single: false,
        in_double: false,
        escaped: false,
        has_token: false,
    }
}

/// Whether a character separates arguments: a blank, a tab, a carriage return or a line feed.
pub open spec fn is_separator(c: char) -> bool {
    c == ' ' || c == '\t' || c == '\r' || c == '\n'
}

/// The state after one more character. Outside of quotes a backslash takes the next character as
/// it is; inside double quotes it does so with a double quote or a backslash, and stands for itself
/// before anything else; inside single quotes it always stands for itself. Quotes join what they
/// hold to an argument; a separator ends an argument.
pub open spec fn after_char(s: SplitView, c: char) -> SplitView {
    if s.escaped {
        if s.in_double && c != '"' && c != '\\' {
            SplitView {
                current: s.current.push('\\').push(c),
                escaped: false,
                has_token: true,
                ..s
            }
        } else {
            SplitView { current: s.current.push(c), escaped: false, has_token: true, ..s }
        }
    } else if c == '\\' && !s.in_single {
        SplitView { escaped: true, has_token: true, ..s }
    } else if c == '\'' && !s.in_double {
        SplitView { in_single: !s.in_single, has_token: true, ..s }
    } else if c == '"' && !s.in_single {
        SplitView { in_double: !s.in_double, has_token: true, ..s }
    } else if is_separator(c) && !s.in_single && !s.in_double {
        if s.has_token {
            SplitView {
                args: s.args.push(s.current),
                current: Seq::empty(),
                has_token: false,
                ..s
            }
        } else {
            s
        }
    } else {
        SplitView { current: s.current.push(c), has_token: true, ..s }
    }
}

/// The state after the first `n` characters of a command.
pub open spec fn after_chars(command: Seq<char>, n: int) -> SplitView
    decreases n,
{
    if n <= 0 {
        split_start()
    } else {
        after_char(after_chars(command, n - 1), command[n - 1])
    }
}

/// The arguments of a command; `None` where a quote or an escape is not ended.
pub open spec fn arguments(command: Seq<char>) -> Option<Seq<Seq<char>>> {
    let s = after_chars(command, command.len() as int);
    if s.in_single || s.in_double || s.escaped {
        None
    } else if s.has_token {
        Some(s.args.push(s.current))
    } else {
        Some(s.args)
    }
}

/// Arguments as mathematical values.
pub open spec fn argument_views(args: Seq<String>) -> Seq<Seq<char>> {
    args.map_values(|a: String| a@)
}

/// How far the splitting of a command has come.
struct Splitter {
    args: Vec<String>,
    current: String,
    in_single: bool,
    in_double: bool,
    escaped: bool,
    has_token: bool,
}

impl Splitter {
    spec fn state(&self) -> SplitView {
        SplitView {
            args: argument_views(self.args@),
            current: self.current@,
            in_single: self.in_single,
            in_double: self.in_double,
            escaped: self.escaped,
            has_token: self.has_token,
        }
    }

    /// Takes one more character in.
    fn take(&mut self, c: char)
        ensures
            final(self).state() == after_char(old(self).state(), c),
    {
        if self.escaped {
            if self.in_double && c != '"' && c != '\\' {
                text::push_char(&mut self.current, '\\');
            }
            text::push_char(&mut self.current, c);
            self.escaped = false;
            self.has_token = true;
        } else if c == '\\' && !self.in_single {
            self.escaped = true;
            self.has_token = true;
        } else if c == '\'' && !self.in_double {
            self.in_single = !self.in_single;
            self.has_token = true;
        } else if c == '"' && !self.in_single {
            self.in_double = !self.in_double;
            self.has_token = true;
        } else if (c == ' ' || c == '\t' || c == '\r' || c == '\n') && !self.in_single && !self.in_double {
            if self.has_token {
                let mut current: String = String::new();
                std::mem::swap(&mut current, &mut self.current);
                assert(self.current@ =~= Seq::<char>::empty());
                let ghost ended = current@;
                self.args.push(current);
                assert(argument_views(self.args@) =~= old(self).state().args.push(ended));
                self.has_token = false;
            }
        } else {
            text::push_char(&mut self.current, c);
            self.has_token = true;
        }
    }
}

/// The arguments of a command.
pub fn split_command(command: &str) -> (r: Result<Vec<String>, RnsError>)
    ensures
        match arguments(command@) {
            Some(args) => r is Ok && argument_views(r->Ok_0@) == args,
            None => r is Err && r->Err_0 == RnsError::InvalidArgument,
        },
{
    let chars: Vec<char> = text::characters(command);
    let mut splitter: Splitter = Splitter {
        args: Vec::new(),
        current: String::new(),
        in_single: false,
        in_double: false,
        escaped: false,
        has_token: false,
    };
    let mut i: usize = 0;
    assert(splitter.state() =~= split_start());
    while i < chars.len()
        invariant
            i <= chars@.len(),
            chars@ == command@,
            splitter.state() == after_chars(command@, i as int),
        decreases chars@.len() - i,
    {
        splitter.take(chars[i]);
        i += 1;
    }
    if splitter.in_single || splitter.in_double || splitter.escaped {
        return Err(RnsError::InvalidArgument);
    }
    let ghost end = splitter.state();
    let mut args: Vec<String> = splitter.args;
    if splitter.has_token {
        args.push(splitter.current);
        assert(argument_views(args@) =~= end.args.push(end.current));
    }
    Ok(args)
}

/// A program whose standard streams carry packets.
pub struct PipeInterface {
    pub command: String,
    pub respawn_delay: u64,
}

/// The program and the arguments of a command.
pub open spec fn program_of(command: Seq<char>) -> Option<(Seq<char>, Seq<Seq<char>>)> {
    match arguments(command) {
        Some(args) => if args.len() > 0 {
            Some((args[0], args.skip(1)))
        } else {
            None
        },
        None => None,
    }
}

impl PipeInterface {
    /// The interface to a program that is started by a command.
    pub fn new(command: &str) -> (r: Self)
        ensures
            r.command@ == command@,
            r.respawn_delay == DEFAULT_RESPAWN_DELAY,
    {
        PipeInterface { command: command.to_owned(), respawn_delay: DEFAULT_RESPAWN_DELAY }
    }

    /// The same interface with another wait before the program is started again.
    pub fn with_respawn_delay(self, delay: u64) -> (r: Self)
        ensures
            r == (PipeInterface { respawn_delay: delay, ..self }),
    {
        PipeInterface { respawn_delay: delay, ..self }
    }

    /// The life of the interface.
    pub fn lifecycle(&self) -> (r: Lifecycle)
        ensures
            r == lifecycle::started(Medium::Process(self.respawn_delay), true),
    {
        Lifecycle::new(Medium::Process(self.respawn_delay), true)
    }

    /// The program to start, and its arguments. An empty command starts nothing.
    pub fn program(&self) -> (r: Result<(String, Vec<String>), RnsError>)
        ensures
            match program_of(self.command@) {
                Some(program) => r is Ok && (r->Ok_0).0@ == program.0 && argument_views(
                    (r->Ok_0).1@,
                ) == program.1,
                None => r is Err && r->Err_0 == RnsError::InvalidArgument,
            },
    {
        let mut args: Vec<String> = match split_command(self.command.as_str()) {
            Ok(args) => args,
            Err(err) => return Err(err),
        };
        if args.len() == 0 {
            return Err(RnsError::InvalidArgument);
        }
        let ghost views = argument_views(args@);
        assert(views[0] == args@[0]@);
        let program: String = args.remove(0);
        assert(argument_views(args@) =~= views.skip(1));
        Ok((program, args))
    }
}

/// Whether a character stands for itself in a command.
pub open spec fn is_plain(c: char) -> bool {
    !is_separator(c) && c != '\\' && c != '\'' && c != '"'
}

/// A command of one word without anything special is that word.
pub proof fn plain_word_is_itself(word: Seq<char>)
    requires
        word.len() > 0,
        forall|i: int| 0 <= i < word.len() ==> is_plain(#[trigger] word[i]),
    ensures
        arguments(word) == Some(seq![word]),
{
    plain_word_upto(word, word.len() as int);
    assert(word.take(word.len() as int) =~= word);
    assert(Seq::<Seq<char>>::empty().push(word) =~= seq![word]);
}

proof fn plain_word_upto(word: Seq<char>, n: int)
    requires
        0 <= n <= word.len(),
        forall|i: int| 0 <= i < word.len() ==> is_plain(#[trigger] word[i]),
    ensures
        after_chars(word, n) == (SplitView {
            current: word.take(n),
            has_token: n > 0,
            ..split_start()
        }),
    decreases n,
{
    if n > 0 {
        plain_word_upto(word, n - 1);
        assert(is_plain(word[n - 1]));
        assert(word.take(n) =~= word.take(n - 1).push(word[n - 1]));
    } else {
        assert(word.take(0) =~= Seq::<char>::empty());
    }
}

/// Single quotes take everything between them as it is: a text without a single quote comes out of
/// them unchanged.
pub proof fn single_quotes_protect(word: Seq<char>)
    requires
        forall|i: int| 0 <= i < word.len() ==> #[trigger] word[i] != '\'',
    ensures
        arguments(seq!['\''] + word + seq!['\'']) == Some(seq![word]),
{
    let command = seq!['\''] + word + seq!['\''];
    quoted_upto(word, word.len() as int);
    assert(word.take(word.len() as int) =~= word);
    assert(command[command.len() - 1] == '\'');
    assert(Seq::<Seq<char>>::empty().push(word) =~= seq![word]);
}

proof fn quoted_upto(word: Seq<char>, n: int)
    requires
        0 <= n <= word.len(),
        forall|i: int| 0 <= i < word.len() ==> #[trigger] word[i] != '\'',
    ensures
        after_chars(seq!['\''] + word + seq!['\''], n + 1) == (SplitView {
            current: word.take(n),
            in_single: true,
            has_token: true,
            ..split_start()
        }),
    decreases n,
{
    let command = seq!['\''] + word + seq!['\''];
    reveal_with_fuel(after_chars, 2);
    if n > 0 {
        quoted_upto(word, n - 1);
        assert(command[n] == word[n - 1]);
        assert(word.take(n) =~= word.take(n - 1).push(word[n - 1]));
    } else {
        assert(command[0] == '\'');
        assert(word.take(0) =~= Seq::<char>::empty());
    }
}

impl Interface for PipeInterface {
    fn mtu() -> (r: usize)
        ensures
            r == HW_MTU,
    {
        HW_MTU
    }
}

} // verus!
