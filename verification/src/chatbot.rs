//! What the bot does with each message of the stream: which scores it
//! changes, what it answers, what it counts and what it hands to the plugins.
//! The connection itself is not part of this library: whoever holds it hands
//! each message to `Chatbot::lurk` and carries out what comes back.

use vstd::prelude::*;
use vstd::string::*;
use crate::grammar::{
    chat_votes, command_of, direct_from, get_dm, glyphs_of, named_votes, parse_chat, parse_dm,
    Command,
};
use crate::karma::{keyed, Karma};
use crate::ledger::{bias_all, bias_fits, score, Score};
use crate::ranking::rendered;
use crate::term::folded;
use crate::text::decimal;

verus! {

/// How the bot is set up.
#[derive(Debug)]
pub struct Args {
    /// The server to connect to.
    pub server: String,
    /// The channel to join.
    pub channel: String,
    /// The nickname to use.
    pub nick: String,
    /// The address that the HTTP server binds to.
    pub http_addr: String,
    /// The file that the scores are loaded from and written to, if any.
    pub persist_path: Option<String>,
    /// The directory to watch for plugins, if any.
    pub plugin_dir: Option<String>,
}

/// A message of the stream, as far as the bot reads it.
#[derive(Debug)]
pub enum Incoming {
    /// Something was said: by `from`, to `recipient`, with answers due to
    /// `reply_to`.
    Privmsg { from: String, recipient: String, reply_to: String, text: String },
    /// A ping from a server.
    Ping { server: String },
    /// A pong from a server.
    Pong { server: String },
    /// Any other message.
    Other,
    /// The bot is asked to shut down.
    Shutdown,
}

/// One thing for the holder of the connection to do.
#[derive(Debug)]
pub enum Outgoing {
    /// Count one message of a kind: `privmsg`, `ping` or `pong`.
    CountMessage { kind: String },
    /// Count one message said to the bot.
    CountDm { from: String, respondee: String },
    /// Count one ping from a server.
    CountPing { server: String },
    /// Count one pong from a server.
    CountPong { server: String },
    /// Say `text` to `to`.
    Send { to: String, text: String },
    /// The scores were written: publish them and write the snapshot.
    Publish,
    /// The votes of the line do not fit the range of a score: no score was
    /// changed.
    Overflow,
    /// Hand `text` to the plugins and say each reply to `to`.
    Dispatch { to: String, text: String },
    /// Stop reading the stream.
    Stop,
}

/// A message of the stream, as contracts speak of it.
pub enum Event {
    Privmsg { from: Seq<char>, recipient: Seq<char>, reply_to: Seq<char>, text: Seq<char> },
    Ping { server: Seq<char> },
    Pong { server: Seq<char> },
    Other,
    Shutdown,
}

/// One thing to do, as contracts speak of it.
pub enum Act {
    CountMessage { kind: Seq<char> },
    CountDm { from: Seq<char>, respondee: Seq<char> },
    CountPing { server: Seq<char> },
    CountPong { server: Seq<char> },
    Send { to: Seq<char>, text: Seq<char> },
    Publish,
    Overflow,
    Dispatch { to: Seq<char>, text: Seq<char> },
    Stop,
}

impl DeepView for Incoming {
    type V = Event;

    open spec fn deep_view(&self) -> Event {
        match *self {
            Incoming::Privmsg { from, recipient, reply_to, text } => Event::Privmsg {
                from: from@,
                recipient: recipient@,
                reply_to: reply_to@,
                text: text@,
            },
            Incoming::Ping { server } => Event::Ping { server: server@ },
            Incoming::Pong { server } => Event::Pong { server: server@ },
            Incoming::Other => Event::Other,
            Incoming::Shutdown => Event::Shutdown,
        }
    }
}

impl DeepView for Outgoing {
    type V = Act;

    open spec fn deep_view(&self) -> Act {
        match *self {
            Outgoing::CountMessage { kind } => Act::CountMessage { kind: kind@ },
            Outgoing::CountDm { from, respondee } => Act::CountDm {
                from: from@,
                respondee: respondee@,
            },
            Outgoing::CountPing { server } => Act::CountPing { server: server@ },
            Outgoing::CountPong { server } => Act::CountPong { server: server@ },
            Outgoing::Send { to, text } => Act::Send { to: to@, text: text@ },
            Outgoing::Publish => Act::Publish,
            Outgoing::Overflow => Act::Overflow,
            Outgoing::Dispatch { to, text } => Act::Dispatch { to: to@, text: text@ },
            Outgoing::Stop => Act::Stop,
        }
    }
}

/// The answer to what was said to the bot: all scores, the score of one
/// term, or that the command is not known.
pub open spec fn answer(ledger: Seq<Score>, said: Seq<char>) -> Seq<char> {
    match command_of(glyphs_of(said)) {
        Some(Command::All) => rendered(ledger),
        Some(Command::One { start, end }) => decimal(
            score(ledger, folded(said.subrange(start, end))),
        ),
        None => "unknown command / args"@,
    }
}

/// The biases that a line said in a channel casts: one for each of its
/// votes.
pub open spec fn cast_by(text: Seq<char>) -> Seq<Score> {
    keyed(named_votes(text, chat_votes(glyphs_of(text))))
}

/// The scores after a message. Only what is said in a channel changes
/// scores: its votes are added, all of them or, where they do not fit, none.
pub open spec fn ledger_after(ledger: Seq<Score>, nick: Seq<char>, event: Event) -> Seq<Score> {
    match event {
        Event::Privmsg { from, recipient, reply_to, text } => if direct_from(
            nick,
            recipient,
            glyphs_of(text),
        ).is_none() && bias_fits(ledger, cast_by(text)) {
            bias_all(ledger, cast_by(text))
        } else {
            ledger
        },
        _ => ledger,
    }
}

/// What was read of a line that was said, as contracts speak of it.
pub enum Read {
    /// The line was said to the bot, and this is the answer.
    Direct { reply: Seq<char> },
    /// The line was said in a channel, and its votes fit or do not.
    Chat { fits: bool },
}

/// What was read of a line that was said.
#[derive(Debug)]
pub enum Reading {
    /// The line was said to the bot, and this is the answer.
    Direct { reply: String },
    /// The line was said in a channel, and its votes fit or do not.
    Chat { fits: bool },
}

impl DeepView for Reading {
    type V = Read;

    open spec fn deep_view(&self) -> Read {
        match *self {
            Reading::Direct { reply } => Read::Direct { reply: reply@ },
            Reading::Chat { fits } => Read::Chat { fits },
        }
    }
}

/// What is read of a message: of a line said to the bot the answer, of any
/// other line that was said whether its votes fit, and nothing of other
/// messages.
pub open spec fn reading(ledger: Seq<Score>, nick: Seq<char>, event: Event) -> Option<Read> {
    match event {
        Event::Privmsg { from, recipient, reply_to, text } => match direct_from(
            nick,
            recipient,
            glyphs_of(text),
        ) {
            Some(at) => Some(Read::Direct { reply: answer(ledger, text.skip(at)) }),
            None => Some(Read::Chat { fits: bias_fits(ledger, cast_by(text)) }),
        },
        _ => None,
    }
}

/// What is to be done after a message, in order, given what was read of it.
/// Every line that was said is counted and handed to the plugins. A line
/// said to the bot is counted as such and answered. The votes of any other
/// line are published where they were added.
pub open spec fn acts_on(channel: Seq<char>, event: Event, read: Option<Read>) -> Seq<Act> {
    match event {
        Event::Privmsg { from, recipient, reply_to, text } => {
            let counted = seq![Act::CountMessage { kind: "privmsg"@ }];
            let handed = seq![Act::Dispatch { to: reply_to, text }];
            match read {
                Some(Read::Direct { reply }) => counted + seq![
                    Act::CountDm { from, respondee: reply_to },
                    Act::Send { to: reply_to, text: reply },
                ] + handed,
                Some(Read::Chat { fits }) => if fits {
                    counted + seq![Act::Publish] + handed
                } else {
                    counted + seq![Act::Overflow] + handed
                },
                None => counted + handed,
            }
        },
        Event::Ping { server } => seq![
            Act::CountMessage { kind: "ping"@ },
            Act::CountPing { server },
        ],
        Event::Pong { server } => seq![
            Act::CountMessage { kind: "pong"@ },
            Act::CountPong { server },
        ],
        Event::Other => Seq::<Act>::empty(),
        Event::Shutdown => seq![Act::Send { to: channel, text: "Killed!"@ }, Act::Stop],
    }
}

/// What is to be done after a message, in order.
pub open spec fn reaction(
    ledger: Seq<Score>,
    nick: Seq<char>,
    channel: Seq<char>,
    event: Event,
) -> Seq<Act> {
    acts_on(channel, event, reading(ledger, nick, event))
}

/// The bot's part in the stream.
#[derive(Debug)]
pub struct Chatbot {
    args: Args,
}

impl Chatbot {
    /// A bot set up by `args`.
    pub fn new(args: Args) -> (bot: Chatbot)
        ensures
            bot.set_up() == args,
    {
        Chatbot { args }
    }

    /// How the bot is set up: what it was made with.
    pub closed spec fn set_up(&self) -> Args {
        self.args
    }

    /// The channel that the bot has joined: that of its set-up.
    pub open spec fn channel(&self) -> Seq<char> {
        self.set_up().channel@
    }

    /// How the bot is set up: what it was made with.
    pub fn args(&self) -> (args: &Args)
        ensures
            *args == self.set_up(),
    {
        &self.args
    }

    /// What is to be done after a message, in order, given what was read of
    /// it.
    pub fn acts_for(&self, message: &Incoming, read: Option<Reading>) -> (acts: Vec<Outgoing>)
        ensures
            acts.deep_view() == acts_on(self.channel(), message.deep_view(), read.deep_view()),
    {
        let mut acts: Vec<Outgoing> = Vec::new();
        match message {
            Incoming::Privmsg { from, recipient, reply_to, text } => {
                acts.push(Outgoing::CountMessage { kind: String::from_str("privmsg") });
                match read {
                    Some(Reading::Direct { reply }) => {
                        acts.push(
                            Outgoing::CountDm { from: from.clone(), respondee: reply_to.clone() },
                        );
                        acts.push(Outgoing::Send { to: reply_to.clone(), text: reply });
                    },
                    Some(Reading::Chat { fits }) => {
                        if fits {
                            acts.push(Outgoing::Publish);
                        } else {
                            acts.push(Outgoing::Overflow);
                        }
                    },
                    None => {},
                }
                acts.push(Outgoing::Dispatch { to: reply_to.clone(), text: text.clone() });
            },
            Incoming::Ping { server } => {
                acts.push(Outgoing::CountMessage { kind: String::from_str("ping") });
                acts.push(Outgoing::CountPing { server: server.clone() });
            },
            Incoming::Pong { server } => {
                acts.push(Outgoing::CountMessage { kind: String::from_str("pong") });
                acts.push(Outgoing::CountPong { server: server.clone() });
            },
            Incoming::Other => {},
            Incoming::Shutdown => {
                acts.push(
                    Outgoing::Send {
                        to: self.args.channel.clone(),
                        text: String::from_str("Killed!"),
                    },
                );
                acts.push(Outgoing::Stop);
            },
        }
        proof {
            assert(acts.deep_view() =~= acts_on(
                self.channel(),
                message.deep_view(),
                read.deep_view(),
            ));
        }
        acts
    }

    /// One step of the bot: takes a message of the stream, changes the scores
    /// as the message asks, and returns what is to be done, in order. `nick`
    /// is the nickname that the bot goes by when the message comes.
    pub fn lurk(&self, karma: &mut Karma, nick: &str, message: &Incoming) -> (acts: Vec<Outgoing>)
        ensures
            acts.deep_view() == reaction(old(karma)@, nick@, self.channel(), message.deep_view()),
            final(karma)@ == ledger_after(old(karma)@, nick@, message.deep_view()),
            final(karma).persistent() == old(karma).persistent(),
    {
        let read = match message {
            Incoming::Privmsg { from, recipient, reply_to, text } => {
                match get_dm(nick, recipient.as_str(), text.as_str()) {
                    Some(said) => {
                        let reply = match parse_dm(said, karma) {
                            Ok(reply) => reply,
                            Err(_) => String::from_str("unknown command / args"),
                        };
                        Some(Reading::Direct { reply })
                    },
                    None => match parse_chat(text.as_str()) {
                        Ok(votes) => Some(Reading::Chat { fits: karma.try_bias_from(votes) }),
                        Err(_) => None,
                    },
                }
            },
            _ => None,
        };
        self.acts_for(message, read)
    }
}

} // verus!
