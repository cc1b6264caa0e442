//! The commands of the control channel: `STREAM <target> <topics>` opens a
//! subscription, `PING` asks whether the server is there.
//!
//! A line is read in two stages, because the target of `STREAM` has to be
//! resolved by the caller: [`Command::parse`] reads the line up to the
//! target and says what to resolve, [`PendingStream::finish`] takes the
//! resolver's outcome and reads the rest.

use crate::error::{ParseError, ParseFault};
use crate::target::{
    leads_back, lookup_of, resolved_target, target_text, Resolution, ResolutionView, UdpAddr,
};
use crate::addr::lemma_socket_text_is_solid;
use crate::text::{
    chars_of, clone_chars, is_free_of, join, lemma_split_append_piece, lemma_split_single,
    lemma_trim_is_trimmed, lemma_upper_fixes_ascii_upper, push_all, same_chars, split, string_of,
    upper, upper_chars, views, words, words_of, Separator,
};
use crate::tickers::{
    collect_topics, law_topics_round_trip, normalize_topic, parse_topics, Tickers,
    TICKER_SEPARATOR,
};
use vstd::prelude::*;

verus! {

/// A command of the control channel.
#[derive(Debug, PartialEq, Eq)]
pub enum Command {
    /// Send the updates of `tickers` to `udp_addr`.
    Stream { udp_addr: UdpAddr, tickers: Tickers },
    Ping,
}

/// What a [`Command`] holds.
pub enum CommandView {
    Stream { udp_addr: UdpAddr, tickers: Seq<Seq<char>> },
    Ping,
}

impl View for Command {
    type V = CommandView;

    open spec fn view(&self) -> CommandView {
        match self {
            Command::Stream { udp_addr, tickers } => CommandView::Stream {
                udp_addr: *udp_addr,
                tickers: tickers@,
            },
            Command::Ping => CommandView::Ping,
        }
    }
}

impl Clone for Command {
    fn clone(&self) -> (r: Self)
        ensures
            r@ == self@,
    {
        match self {
            Command::Stream { udp_addr, tickers } => Command::Stream {
                udp_addr: *udp_addr,
                tickers: tickers.clone(),
            },
            Command::Ping => Command::Ping,
        }
    }
}

/// A `STREAM` command whose target is still to be resolved.
pub struct PendingStream {
    asked: String,
    rest: Vec<Vec<char>>,
}

/// How far a line has been read.
pub enum Parsing {
    /// The line is read; holds the command.
    Done(Command),
    /// The line is `STREAM` with a target that is to be resolved.
    NeedsLookup(PendingStream),
}

/// What a [`Parsing`] holds.
pub enum ParsingView {
    Done(CommandView),
    /// The text to resolve, and the words of the line behind the target.
    NeedsLookup { asked: Seq<char>, rest: Seq<Seq<char>> },
}

impl View for Parsing {
    type V = ParsingView;

    open spec fn view(&self) -> ParsingView {
        match self {
            Parsing::Done(command) => ParsingView::Done(command@),
            Parsing::NeedsLookup(pending) => ParsingView::NeedsLookup {
                asked: pending.asked(),
                rest: pending.rest(),
            },
        }
    }
}

/// The first stage of reading a line: the verb, taken without regard to
/// case, and for `STREAM` the text to resolve. `PING` stands alone on its
/// line.
pub open spec fn first_stage(line: Seq<char>) -> Result<ParsingView, ParseFault> {
    let all = words(line);
    if all.len() == 0 {
        Err(ParseFault::EmptyCommand)
    } else if upper(all[0]) == "STREAM"@ {
        if all.len() < 2 {
            Err(ParseFault::MissingAddress)
        } else {
            match lookup_of(all[1]) {
                Ok(asked) => Ok(ParsingView::NeedsLookup { asked, rest: all.skip(2) }),
                Err(e) => Err(e),
            }
        }
    } else if upper(all[0]) == "PING"@ {
        if all.len() > 1 {
            Err(ParseFault::PingWithArguments)
        } else {
            Ok(ParsingView::Done(CommandView::Ping))
        }
    } else {
        Err(ParseFault::UnknownCommand(upper(all[0])))
    }
}

/// The second stage of reading a `STREAM` line: the target that the
/// resolver found, and then the topics, which must be the last word.
pub open spec fn second_stage(
    asked: Seq<char>,
    rest: Seq<Seq<char>>,
    outcome: ResolutionView,
) -> Result<CommandView, ParseFault> {
    match resolved_target(asked, outcome) {
        Err(e) => Err(e),
        Ok(udp_addr) => if rest.len() < 1 {
            Err(ParseFault::MissingTickers)
        } else {
            match parse_topics(rest[0]) {
                Err(e) => Err(e),
                Ok(tickers) => if rest.len() > 1 {
                    Err(ParseFault::TooManyArguments)
                } else {
                    Ok(CommandView::Stream { udp_addr, tickers })
                },
            }
        },
    }
}

/// What reading a line gives, where the resolver, if it is asked, answers
/// with `outcome`.
pub open spec fn command_of(line: Seq<char>, outcome: ResolutionView) -> Result<
    CommandView,
    ParseFault,
> {
    match first_stage(line) {
        Err(e) => Err(e),
        Ok(ParsingView::Done(command)) => Ok(command),
        Ok(ParsingView::NeedsLookup { asked, rest }) => second_stage(asked, rest, outcome),
    }
}

/// The line of a command.
pub open spec fn command_text(command: CommandView) -> Seq<char> {
    match command {
        CommandView::Stream { udp_addr, tickers } => "STREAM "@ + target_text(udp_addr).push(' ')
            + join(tickers, TICKER_SEPARATOR),
        CommandView::Ping => "PING"@,
    }
}

impl Command {
    pub fn stream(udp_addr: UdpAddr, tickers: Tickers) -> (r: Command)
        ensures
            r@ == (CommandView::Stream { udp_addr, tickers: tickers@ }),
    {
        Command::Stream { udp_addr, tickers }
    }

    /// Reads a line up to the point where a target has to be resolved.
    pub fn parse(line: &str) -> (r: Result<Parsing, ParseError>)
        ensures
            match r {
                Ok(stage) => first_stage(line@) == Ok::<ParsingView, ParseFault>(stage@),
                Err(e) => first_stage(line@) == Err::<ParsingView, ParseFault>(e@),
            },
    {
        let chars = chars_of(line);
        let all = words_of(chars.as_slice());
        let ghost spec_all = words(line@);
        assert(views(all@) == spec_all);
        if all.len() == 0 {
            return Err(ParseError::EmptyCommand);
        }
        assert(spec_all[0] == all@[0]@);
        let verb = upper_chars(all[0].as_slice());
        let stream = chars_of("STREAM");
        let ping = chars_of("PING");
        if same_chars(verb.as_slice(), stream.as_slice()) {
            if all.len() < 2 {
                return Err(ParseError::MissingAddress);
            }
            assert(spec_all[1] == all@[1]@);
            let target = string_of(all[1].as_slice());
            let asked = match UdpAddr::lookup_text(target.as_str()) {
                Ok(asked) => asked,
                Err(e) => {
                    return Err(e);
                },
            };
            let mut rest: Vec<Vec<char>> = Vec::new();
            let mut i: usize = 2;
            while i < all.len()
                invariant
                    2 <= i <= all.len(),
                    views(rest@) == views(all@).subrange(2, i as int),
                decreases all.len() - i,
            {
                let ghost before = views(rest@);
                rest.push(clone_chars(&all[i]));
                assert(views(rest@) == before.push(all@[i as int]@));
                i += 1;
            }
            assert(views(all@).subrange(2, all.len() as int) == spec_all.skip(2));
            Ok(Parsing::NeedsLookup(PendingStream { asked, rest }))
        } else if same_chars(verb.as_slice(), ping.as_slice()) {
            if all.len() > 1 {
                Err(ParseError::PingWithArguments)
            } else {
                Ok(Parsing::Done(Command::Ping))
            }
        } else {
            Err(ParseError::UnknownCommand(string_of(verb.as_slice())))
        }
    }

    /// Reads a line, asking `resolve` for the addresses of the target where
    /// the line has one. The resolver is asked at most once, for the text
    /// that the first stage names.
    pub fn parse_with<F: Fn(&str) -> Resolution>(line: &str, resolve: F) -> (r: Result<
        Command,
        ParseError,
    >)
        requires
            forall|asked: &str| resolve.requires((asked,)),
        ensures
            match first_stage(line@) {
                Err(e) => r is Err && r->Err_0@ == e,
                Ok(ParsingView::Done(command)) => r is Ok && r->Ok_0@ == command,
                Ok(ParsingView::NeedsLookup { asked, rest }) => exists|
                    text: &str,
                    outcome: Resolution,
                |
                    text@ == asked && resolve.ensures((text,), outcome) && (match r {
                        Ok(command) => second_stage(asked, rest, outcome@) == Ok::<
                            CommandView,
                            ParseFault,
                        >(command@),
                        Err(e) => second_stage(asked, rest, outcome@) == Err::<
                            CommandView,
                            ParseFault,
                        >(e@),
                    }),
            },
    {
        match Command::parse(line) {
            Err(e) => Err(e),
            Ok(Parsing::Done(command)) => Ok(command),
            Ok(Parsing::NeedsLookup(pending)) => {
                let ghost asked = pending.asked();
                let ghost rest = pending.rest();
                let text = pending.lookup_text();
                let outcome = resolve(text);
                let ghost found = outcome;
                let r = pending.finish(outcome);
                assert(text@ == asked && resolve.ensures((text,), found) && (match r {
                    Ok(command) => second_stage(asked, rest, found@) == Ok::<
                        CommandView,
                        ParseFault,
                    >(command@),
                    Err(e) => second_stage(asked, rest, found@) == Err::<CommandView, ParseFault>(
                        e@,
                    ),
                }));
                r
            },
        }
    }

    /// The line of this command.
    pub fn to_string(&self) -> (r: String)
        ensures
            r@ == command_text(self@),
    {
        match self {
            Command::Stream { udp_addr, tickers } => {
                let mut out = chars_of("STREAM ");
                udp_addr.push_text(&mut out);
                out.push(' ');
                let topics = tickers.to_string();
                let topic_chars = chars_of(topics.as_str());
                push_all(&mut out, topic_chars.as_slice());
                string_of(out.as_slice())
            },
            Command::Ping => {
                let chars = chars_of("PING");
                string_of(chars.as_slice())
            },
        }
    }
}

impl PendingStream {
    /// The `host:port` text that the caller is to resolve.
    pub fn lookup_text(&self) -> (r: &str)
        ensures
            r@ == self.asked(),
    {
        self.asked.as_str()
    }

    /// The `host:port` text that is to be resolved.
    pub closed spec fn asked(self) -> Seq<char> {
        self.asked@
    }

    /// The words of the line behind the target.
    pub closed spec fn rest(self) -> Seq<Seq<char>> {
        views(self.rest@)
    }

    /// Reads the rest of the line, with the resolver's outcome for the
    /// target.
    pub fn finish(self, outcome: Resolution) -> (r: Result<Command, ParseError>)
        ensures
            match r {
                Ok(command) => second_stage(self.asked(), self.rest(), outcome@) == Ok::<
                    CommandView,
                    ParseFault,
                >(command@),
                Err(e) => second_stage(self.asked(), self.rest(), outcome@) == Err::<
                    CommandView,
                    ParseFault,
                >(e@),
            },
    {
        let udp_addr = match UdpAddr::from_host_port(self.asked.as_str(), outcome) {
            Ok(target) => target,
            Err(e) => {
                return Err(e);
            },
        };
        if self.rest.len() < 1 {
            return Err(ParseError::MissingTickers);
        }
        assert(views(self.rest@)[0] == self.rest@[0]@);
        let topics = string_of(self.rest[0].as_slice());
        let tickers = match Tickers::parse(topics.as_str()) {
            Ok(tickers) => tickers,
            Err(e) => {
                return Err(e);
            },
        };
        if self.rest.len() > 1 {
            return Err(ParseError::TooManyArguments);
        }
        Ok(Command::stream(udp_addr, tickers))
    }
}

/// A topic as it stands in a command line: not empty, without whitespace
/// and commas, and in uppercase.
pub open spec fn is_plain_topic(topic: Seq<char>) -> bool {
    &&& topic.len() > 0
    &&& is_free_of(topic, Separator::Whitespace)
    &&& is_free_of(topic, Separator::Char(TICKER_SEPARATOR))
    &&& upper(topic) == topic
}

/// A command whose topics are distinct and plain.
pub open spec fn is_plain_command(command: CommandView) -> bool {
    match command {
        CommandView::Ping => true,
        CommandView::Stream { udp_addr, tickers } => {
            &&& tickers.len() >= 1
            &&& tickers.no_duplicates()
            &&& forall|i: int| 0 <= i < tickers.len() ==> is_plain_topic(#[trigger] tickers[i])
        },
    }
}

proof fn lemma_plain_topics_collect(topics: Seq<Seq<char>>)
    requires
        topics.no_duplicates(),
        forall|i: int| 0 <= i < topics.len() ==> is_plain_topic(#[trigger] topics[i]),
    ensures
        collect_topics(topics) == topics,
    decreases topics.len(),
{
    if topics.len() > 0 {
        let init = topics.drop_last();
        let last = topics.last();
        assert forall|i: int| 0 <= i < init.len() implies is_plain_topic(#[trigger] init[i]) by {
            assert(init[i] == topics[i]);
        }
        lemma_plain_topics_collect(init);
        assert(is_plain_topic(topics[topics.len() - 1]));
        lemma_trim_is_trimmed(last);
        assert(normalize_topic(last) == last);
        if init.contains(last) {
            let j = choose|j: int| 0 <= j < init.len() && init[j] == last;
            assert(topics[j] == topics[topics.len() - 1]);
        }
        assert(init.push(last) == topics);
    }
}

proof fn lemma_join_is_free(parts: Seq<Seq<char>>, d: char, sep: Separator)
    requires
        !sep.matches(d),
        forall|i: int| 0 <= i < parts.len() ==> is_free_of(#[trigger] parts[i], sep),
    ensures
        is_free_of(join(parts, d), sep),
        parts.len() > 0 && parts[0].len() > 0 ==> join(parts, d).len() > 0,
    decreases parts.len(),
{
    if parts.len() > 1 {
        let init = parts.drop_last();
        assert forall|i: int| 0 <= i < init.len() implies is_free_of(#[trigger] init[i], sep) by {
            assert(init[i] == parts[i]);
        }
        lemma_join_is_free(init, d, sep);
        assert(is_free_of(parts[parts.len() - 1], sep));
        assert(init[0] == parts[0]);
    } else if parts.len() == 1 {
        assert(is_free_of(parts[0], sep));
    }
}

proof fn lemma_filter_keeps_all(s: Seq<Seq<char>>, keep: spec_fn(Seq<char>) -> bool)
    requires
        forall|i: int| 0 <= i < s.len() ==> keep(#[trigger] s[i]),
    ensures
        s.filter(keep) == s,
    decreases s.len(),
{
    reveal(Seq::filter);
    if s.len() > 0 {
        lemma_filter_keeps_all(s.drop_last(), keep);
        assert(keep(s[s.len() - 1]));
        assert(s.drop_last().push(s.last()) == s);
    }
}

/// The words of a `STREAM` line are the verb, the target and the topics.
proof fn lemma_stream_words(target: Seq<char>, topics: Seq<char>)
    requires
        target.len() > 0,
        topics.len() > 0,
        is_free_of(target, Separator::Whitespace),
        is_free_of(topics, Separator::Whitespace),
    ensures
        words("STREAM "@ + target.push(' ') + topics) == seq!["STREAM"@, target, topics],
{
    reveal_strlit("STREAM");
    reveal_strlit("STREAM ");
    let sep = Separator::Whitespace;
    let verb = "STREAM"@;
    assert(is_free_of(verb, sep));
    lemma_split_single(verb, sep);
    lemma_split_append_piece(verb, ' ', target, sep);
    let head = verb.push(' ') + target;
    lemma_split_append_piece(head, ' ', topics, sep);
    let line = "STREAM "@ + target.push(' ') + topics;
    assert("STREAM "@ == verb.push(' '));
    assert(line == head.push(' ') + topics);
    let pieces = seq![verb, target, topics];
    assert(split(line, sep) == pieces);
    lemma_filter_keeps_all(pieces, |w: Seq<char>| w.len() > 0);
}

/// A plain command reads back from its line as itself. For `STREAM` this
/// rests on the two steps that lie outside: that the URL reading and the
/// resolver lead from the target's text back to the target.
pub proof fn law_command_round_trip(command: CommandView, outcome: ResolutionView)
    requires
        is_plain_command(command),
        match command {
            CommandView::Stream { udp_addr, tickers } => leads_back(udp_addr, outcome),
            CommandView::Ping => true,
        },
    ensures
        command_of(command_text(command), outcome) == Ok::<CommandView, ParseFault>(command),
{
    match command {
        CommandView::Ping => {
            reveal_strlit("PING");
            reveal_strlit("STREAM");
            let verb = "PING"@;
            assert(is_free_of(verb, Separator::Whitespace));
            lemma_split_single(verb, Separator::Whitespace);
            lemma_filter_keeps_all(seq![verb], |w: Seq<char>| w.len() > 0);
            assert(words(verb) == seq![verb]);
            lemma_upper_fixes_ascii_upper(verb);
        },
        CommandView::Stream { udp_addr, tickers } => {
            reveal_strlit("PING");
            reveal_strlit("STREAM");
            reveal_strlit("udp://");
            let target = target_text(udp_addr);
            let topics = join(tickers, TICKER_SEPARATOR);
            lemma_socket_text_is_solid(udp_addr.0);
            assert(is_free_of(target, Separator::Whitespace));
            assert(is_plain_topic(tickers[0]));
            lemma_join_is_free(tickers, TICKER_SEPARATOR, Separator::Whitespace);
            lemma_stream_words(target, topics);
            lemma_upper_fixes_ascii_upper("STREAM"@);
            let all = words(command_text(command));
            assert(all == seq!["STREAM"@, target, topics]);
            assert(all.skip(2) == seq![topics]);
            law_topics_round_trip(tickers);
            lemma_plain_topics_collect(tickers);
        },
    }
}

/// The verb is read without regard to case: two lines whose verbs are the
/// same in uppercase, and whose other words are the same, read alike.
pub proof fn law_verb_ignores_case(a: Seq<char>, b: Seq<char>, outcome: ResolutionView)
    requires
        words(a).len() >= 1,
        words(b).len() >= 1,
        upper(words(a)[0]) == upper(words(b)[0]),
        words(a).skip(1) == words(b).skip(1),
    ensures
        command_of(a, outcome) == command_of(b, outcome),
{
    let x = words(a);
    let y = words(b);
    assert(x.len() == y.len()) by {
        assert(x.skip(1).len() == y.skip(1).len());
    }
    if x.len() >= 2 {
        assert(x[1] == x.skip(1)[0]);
        assert(y[1] == y.skip(1)[0]);
        assert(x.skip(2) == x.skip(1).skip(1));
        assert(y.skip(2) == y.skip(1).skip(1));
    }
}

} // verus!
