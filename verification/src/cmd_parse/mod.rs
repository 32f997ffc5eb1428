use vstd::prelude::*;

pub mod text;

use self::text::{
    all_ws, chars_of, every_word_ascii, find_char, is_ws, lemma_find_first, lemma_trim_start_first,
    lemma_trim_twice, lemma_words_ascii_by_word, find_in_range, lemma_find_char_contains, lemma_split_tail,
    lemma_trim_end_last, lemma_trim_ignores_padding, lemma_trim_keeps_last, range_is,
    range_words_ascii, split_once, trim, trim_range, trim_start, trim_start_range, words_ascii,
};

verus! {

/// Why a line of text is not a command.
#[derive(Debug)]
pub enum CommandParsingError {
    MalformedCommand,
    UnknownCommand,
    ChannelNameNotAscii,
    PubWithBadArgs,
    PubWithNoArgs,
    SubWithNoArgs,
    PSubWithNoArgs,
    PubSubWithNoArgs,
    PubSubUnknownCommand,
    PubSubChannelsMutipleArgs,
    PubSubNumSubNoArgs,
}

/// The sub-commands of `PUBSUB`.
pub enum PubSubSubCmd<'a> {
    Channels { channel_pattern: Option<&'a str> },
    NumSub { channels: Vec<&'a str> },
}

/// The channels that an `UNSUB` names.
pub enum ChanList<'a> {
    All,
    Many(Vec<&'a str>),
}

/// A parsed command; its texts borrow from the line it was parsed from.
#[non_exhaustive]
#[allow(inconsistent_fields)]
pub enum Command<'a> {
    Pub { channel: &'a str, message: &'a str },
    Sub { channels: Vec<&'a str> },
    UnSub { channels: ChanList<'a> },
    PSub { channel_patterns: Vec<&'a str> },
    PUnSub { channel_patterns: Vec<&'a str> },
    PubSub(PubSubSubCmd<'a>),
}

/// The meaning of a [`PubSubSubCmd`], its texts taken as character sequences.
pub enum PubSubSubCmdModel {
    Channels { channel_pattern: Option<Seq<char>> },
    NumSub { channels: Seq<Seq<char>> },
}

/// The meaning of a [`ChanList`].
pub enum ChanListModel {
    All,
    Many(Seq<Seq<char>>),
}

/// The meaning of a [`Command`], its texts taken as character sequences.
#[allow(inconsistent_fields)]
pub enum CommandModel {
    Pub { channel: Seq<char>, message: Seq<char> },
    Sub { channels: Seq<Seq<char>> },
    UnSub { channels: ChanListModel },
    PSub { channel_patterns: Seq<Seq<char>> },
    PUnSub { channel_patterns: Seq<Seq<char>> },
    PubSub(PubSubSubCmdModel),
}

/// The texts of a list of borrowed strings.
pub open spec fn texts(s: Seq<&str>) -> Seq<Seq<char>> {
    s.map_values(|x: &str| x@)
}

impl<'a> View for PubSubSubCmd<'a> {
    type V = PubSubSubCmdModel;

    open spec fn view(&self) -> PubSubSubCmdModel {
        match self {
            PubSubSubCmd::Channels { channel_pattern } => PubSubSubCmdModel::Channels {
                channel_pattern: match channel_pattern {
                    Some(p) => Some(p@),
                    None => None,
                },
            },
            PubSubSubCmd::NumSub { channels } => PubSubSubCmdModel::NumSub {
                channels: texts(channels@),
            },
        }
    }
}

impl<'a> View for ChanList<'a> {
    type V = ChanListModel;

    open spec fn view(&self) -> ChanListModel {
        match self {
            ChanList::All => ChanListModel::All,
            ChanList::Many(channels) => ChanListModel::Many(texts(channels@)),
        }
    }
}

impl<'a> View for Command<'a> {
    type V = CommandModel;

    open spec fn view(&self) -> CommandModel {
        match self {
            Command::Pub { channel, message } => CommandModel::Pub {
                channel: channel@,
                message: message@,
            },
            Command::Sub { channels } => CommandModel::Sub { channels: texts(channels@) },
            Command::UnSub { channels } => CommandModel::UnSub { channels: channels@ },
            Command::PSub { channel_patterns } => CommandModel::PSub {
                channel_patterns: texts(channel_patterns@),
            },
            Command::PUnSub { channel_patterns } => CommandModel::PUnSub {
                channel_patterns: texts(channel_patterns@),
            },
            Command::PubSub(sub) => CommandModel::PubSub(sub@),
        }
    }
}

/// The meaning of what [`parse_cmd`] returns.
pub open spec fn parsed(r: Result<Command, CommandParsingError>) -> Result<
    CommandModel,
    CommandParsingError,
> {
    match r {
        Ok(c) => Ok(c@),
        Err(e) => Err(e),
    }
}

pub open spec fn kw_pub() -> Seq<char> {
    seq!['P', 'U', 'B']
}

pub open spec fn kw_sub() -> Seq<char> {
    seq!['S', 'U', 'B']
}

pub open spec fn kw_unsub() -> Seq<char> {
    seq!['U', 'N', 'S', 'U', 'B']
}

pub open spec fn kw_psub() -> Seq<char> {
    seq!['P', 'S', 'U', 'B']
}

pub open spec fn kw_punsub() -> Seq<char> {
    seq!['P', 'U', 'N', 'S', 'U', 'B']
}

pub open spec fn kw_pubsub() -> Seq<char> {
    seq!['P', 'U', 'B', 'S', 'U', 'B']
}

pub open spec fn kw_chans() -> Seq<char> {
    seq!['C', 'H', 'A', 'N', 'S']
}

pub open spec fn kw_numsub() -> Seq<char> {
    seq!['N', 'U', 'M', 'S', 'U', 'B']
}

/// The arguments of `PUB`: a channel, then after the first space the message.
pub open spec fn spec_parse_pub(rest: Seq<char>) -> Result<CommandModel, CommandParsingError> {
    let channel_message = trim_start(rest);
    if channel_message.len() == 0 {
        Err(CommandParsingError::PubWithNoArgs)
    } else {
        match split_once(channel_message, ' ') {
            None => Err(CommandParsingError::PubWithBadArgs),
            Some((channel, message)) => Ok(CommandModel::Pub { channel, message }),
        }
    }
}

/// The arguments of `PUBSUB`: a sub-command, then after the first space its arguments.
/// The case where `rest` holds no space is the one that [`parse_panics`] names.
pub open spec fn spec_parse_pubsub(rest: Seq<char>) -> Result<CommandModel, CommandParsingError> {
    if trim(rest).len() == 0 {
        Err(CommandParsingError::PubSubWithNoArgs)
    } else {
        match split_once(rest, ' ') {
            None => Err(CommandParsingError::PubSubUnknownCommand),
            Some((sub_cmd, args)) => {
                let name = trim(sub_cmd);
                if name == kw_chans() {
                    if trim(args).len() == 0 {
                        Ok(CommandModel::PubSub(PubSubSubCmdModel::Channels { channel_pattern: None }))
                    } else if args.contains(' ') {
                        Err(CommandParsingError::PubSubChannelsMutipleArgs)
                    } else if !vstd::utf8::is_ascii_chars(args) {
                        Err(CommandParsingError::ChannelNameNotAscii)
                    } else {
                        Ok(
                            CommandModel::PubSub(
                                PubSubSubCmdModel::Channels { channel_pattern: Some(args) },
                            ),
                        )
                    }
                } else if name == kw_numsub() {
                    if trim(args).len() == 0 {
                        Err(CommandParsingError::PubSubNumSubNoArgs)
                    } else if !words_ascii(args) {
                        Err(CommandParsingError::ChannelNameNotAscii)
                    } else {
                        Ok(CommandModel::PubSub(PubSubSubCmdModel::NumSub { channels: Seq::empty() }))
                    }
                } else {
                    Err(CommandParsingError::PubSubUnknownCommand)
                }
            },
        }
    }
}

/// What a line of text means as a command.
///
/// The line is trimmed, and its command word is the text before the first
/// space. The lists of channels and patterns that `SUB`, `UNSUB`, `PSUB`,
/// `PUNSUB` and `PUBSUB NUMSUB` return are empty: the ASCII check runs the
/// word iterator to its end before the list is collected from it.
pub open spec fn spec_parse(cmd: Seq<char>) -> Result<CommandModel, CommandParsingError> {
    match split_once(trim(cmd), ' ') {
        None => Err(CommandParsingError::MalformedCommand),
        Some((command, rest)) => {
            if command == kw_pub() {
                spec_parse_pub(rest)
            } else if command == kw_sub() {
                if trim(rest).len() == 0 {
                    Err(CommandParsingError::PSubWithNoArgs)
                } else if !words_ascii(rest) {
                    Err(CommandParsingError::ChannelNameNotAscii)
                } else {
                    Ok(CommandModel::Sub { channels: Seq::empty() })
                }
            } else if command == kw_unsub() {
                if trim(rest).len() == 0 {
                    Ok(CommandModel::UnSub { channels: ChanListModel::All })
                } else if !words_ascii(rest) {
                    Err(CommandParsingError::ChannelNameNotAscii)
                } else {
                    Ok(CommandModel::UnSub { channels: ChanListModel::Many(Seq::empty()) })
                }
            } else if command == kw_psub() {
                if trim(rest).len() == 0 {
                    Err(CommandParsingError::PSubWithNoArgs)
                } else if !words_ascii(rest) {
                    Err(CommandParsingError::ChannelNameNotAscii)
                } else {
                    Ok(CommandModel::PSub { channel_patterns: Seq::empty() })
                }
            } else if command == kw_punsub() {
                if trim(rest).len() == 0 {
                    Err(CommandParsingError::PSubWithNoArgs)
                } else if !words_ascii(rest) {
                    Err(CommandParsingError::ChannelNameNotAscii)
                } else {
                    Ok(CommandModel::PUnSub { channel_patterns: Seq::empty() })
                }
            } else if command == kw_pubsub() {
                spec_parse_pubsub(rest)
            } else {
                Err(CommandParsingError::MalformedCommand)
            }
        },
    }
}

/// The lines on which the parser gives up: a `PUBSUB` whose arguments hold no space.
pub open spec fn parse_panics(cmd: Seq<char>) -> bool {
    match split_once(trim(cmd), ' ') {
        None => false,
        Some((command, rest)) => command == kw_pubsub() && trim(rest).len() != 0 && !rest.contains(
            ' ',
        ),
    }
}

/// An empty list of texts.
fn no_texts<'a>() -> (v: Vec<&'a str>)
    ensures
        texts(v@) == Seq::<Seq<char>>::empty(),
{
    let v: Vec<&'a str> = Vec::new();
    assert(texts(v@) =~= Seq::<Seq<char>>::empty());
    v
}

/// Every list of channels or patterns that a parsed command carries is empty.
pub proof fn lemma_parsed_lists_are_empty(cmd: Seq<char>)
    ensures
        match spec_parse(cmd) {
            Ok(CommandModel::Sub { channels }) => channels.len() == 0,
            Ok(CommandModel::UnSub { channels: ChanListModel::Many(channels) }) => channels.len()
                == 0,
            Ok(CommandModel::PSub { channel_patterns }) => channel_patterns.len() == 0,
            Ok(CommandModel::PUnSub { channel_patterns }) => channel_patterns.len() == 0,
            Ok(CommandModel::PubSub(PubSubSubCmdModel::NumSub { channels })) => channels.len() == 0,
            _ => true,
        },
{
}

/// The parser never reports missing arguments, and never answers `UNSUB`
/// with every channel or `PUBSUB CHANS` with no pattern: the line is trimmed
/// before it is split at its first space, so the text after that space always
/// ends in a character that is not whitespace. Nor does it ever report an
/// unknown command or a `SUB` without arguments: an unknown command word is
/// reported as a malformed command.
pub proof fn lemma_parse_never_sees_blank_arguments(cmd: Seq<char>)
    ensures
        !(spec_parse(cmd) matches Err(CommandParsingError::UnknownCommand)),
        !(spec_parse(cmd) matches Err(CommandParsingError::SubWithNoArgs)),
        !(spec_parse(cmd) matches Err(CommandParsingError::PubWithNoArgs)),
        !(spec_parse(cmd) matches Err(CommandParsingError::PSubWithNoArgs)),
        !(spec_parse(cmd) matches Err(CommandParsingError::PubSubWithNoArgs)),
        !(spec_parse(cmd) matches Err(CommandParsingError::PubSubNumSubNoArgs)),
        !(spec_parse(cmd) matches Ok(CommandModel::UnSub { channels: ChanListModel::All })),
        !(spec_parse(cmd) matches Ok(
            CommandModel::PubSub(PubSubSubCmdModel::Channels { channel_pattern: None }),
        )),
{
    let t = trim(cmd);
    lemma_trim_end_last(trim_start(cmd));
    if let Some((command, rest)) = split_once(t, ' ') {
        lemma_split_tail(t, ' ');
        lemma_trim_keeps_last(rest);
        if let Some((_, args)) = split_once(rest, ' ') {
            lemma_split_tail(rest, ' ');
            lemma_trim_keeps_last(args);
        }
    }
}

/// Whitespace around a line does not change what it means, nor whether the
/// parser gives up on it.
pub proof fn lemma_parse_ignores_surrounding_whitespace(
    pre: Seq<char>,
    cmd: Seq<char>,
    post: Seq<char>,
)
    requires
        all_ws(pre),
        all_ws(post),
    ensures
        spec_parse(pre + cmd + post) == spec_parse(cmd),
        parse_panics(pre + cmd + post) == parse_panics(cmd),
{
    lemma_trim_ignores_padding(pre, cmd, post);
}

/// Parsing a line that is already trimmed gives what parsing the line gives,
/// and the parser gives up on the one exactly where it gives up on the other.
pub proof fn lemma_parse_trimmed_line(cmd: Seq<char>)
    ensures
        spec_parse(trim(cmd)) == spec_parse(cmd),
        parse_panics(trim(cmd)) == parse_panics(cmd),
{
    lemma_trim_twice(cmd);
}

/// After the command word of a trimmed line comes text that is not blank and
/// ends in a character that is not whitespace.
/// The command words and sub-commands of the protocol are all different.
proof fn lemma_keywords_differ()
    ensures
        kw_pub() != kw_sub() && kw_pub() != kw_unsub() && kw_pub() != kw_psub(),
        kw_pub() != kw_punsub() && kw_pub() != kw_pubsub(),
        kw_sub() != kw_unsub() && kw_sub() != kw_psub() && kw_sub() != kw_punsub(),
        kw_sub() != kw_pubsub(),
        kw_unsub() != kw_psub() && kw_unsub() != kw_punsub() && kw_unsub() != kw_pubsub(),
        kw_psub() != kw_punsub() && kw_psub() != kw_pubsub(),
        kw_punsub() != kw_pubsub(),
        kw_chans() != kw_numsub(),
{
    assert(kw_pub().len() == 3 && kw_sub().len() == 3 && kw_psub().len() == 4);
    assert(kw_unsub().len() == 5 && kw_chans().len() == 5);
    assert(kw_punsub().len() == 6 && kw_pubsub().len() == 6 && kw_numsub().len() == 6);
    assert(kw_pub()[0] != kw_sub()[0]);
    assert(kw_punsub()[2] != kw_pubsub()[2]);
}

proof fn lemma_arguments_not_blank(cmd: Seq<char>, w: Seq<char>, rest: Seq<char>)
    requires
        split_once(trim(cmd), ' ') == Some((w, rest)),
    ensures
        rest.len() > 0,
        !is_ws(rest.last()),
        trim(rest).len() > 0,
        trim_start(rest).len() > 0,
{
    let t = trim(cmd);
    lemma_trim_end_last(trim_start(cmd));
    lemma_split_tail(t, ' ');
    lemma_trim_keeps_last(rest);
}

/// A line is malformed where its trimmed text holds no space.
pub proof fn lemma_parse_no_space(cmd: Seq<char>)
    requires
        split_once(trim(cmd), ' ') is None,
    ensures
        spec_parse(cmd) == Err::<CommandModel, CommandParsingError>(
            CommandParsingError::MalformedCommand,
        ),
        !parse_panics(cmd),
{
}

/// A line is malformed where its command word (the text of the trimmed line
/// before its first space) is none of `PUB`, `SUB`, `UNSUB`, `PSUB`, `PUNSUB`,
/// `PUBSUB`.
pub proof fn lemma_parse_unknown_word(cmd: Seq<char>, w: Seq<char>, rest: Seq<char>)
    requires
        split_once(trim(cmd), ' ') == Some((w, rest)),
        w != kw_pub() && w != kw_sub() && w != kw_unsub(),
        w != kw_psub() && w != kw_punsub() && w != kw_pubsub(),
    ensures
        spec_parse(cmd) == Err::<CommandModel, CommandParsingError>(
            CommandParsingError::MalformedCommand,
        ),
        !parse_panics(cmd),
{
}

/// `PUB` without a space after the channel: the arguments are bad.
pub proof fn lemma_parse_pub_without_message(cmd: Seq<char>, rest: Seq<char>)
    requires
        split_once(trim(cmd), ' ') == Some((kw_pub(), rest)),
        !trim_start(rest).contains(' '),
    ensures
        spec_parse(cmd) == Err::<CommandModel, CommandParsingError>(
            CommandParsingError::PubWithBadArgs,
        ),
        !parse_panics(cmd),
{
    lemma_keywords_differ();
    lemma_arguments_not_blank(cmd, kw_pub(), rest);
    lemma_find_char_contains(trim_start(rest), ' ');
}

/// `PUB`: the arguments, without their leading whitespace, are the channel, a
/// space and the message; the channel is not empty and holds no space, and the
/// line parses to a `PUB` of that channel and message. The parser never gives
/// up on a `PUB` line.
pub proof fn lemma_parse_pub(cmd: Seq<char>, rest: Seq<char>, channel: Seq<char>, message: Seq<char>)
    requires
        split_once(trim(cmd), ' ') == Some((kw_pub(), rest)),
        split_once(trim_start(rest), ' ') == Some((channel, message)),
    ensures
        spec_parse(cmd) == (Ok::<CommandModel, CommandParsingError>(
            CommandModel::Pub { channel, message },
        )),
        trim_start(rest) == channel + seq![' '] + message,
        !channel.contains(' '),
        channel.len() > 0,
        !parse_panics(cmd),
{
    lemma_keywords_differ();
    lemma_arguments_not_blank(cmd, kw_pub(), rest);
    let cm = trim_start(rest);
    lemma_trim_start_first(rest);
    lemma_find_first(cm, ' ');
    let i = find_char(cm, ' ')->0;
    assert(cm =~= cm.take(i) + seq![' '] + cm.skip(i + 1));
    if cm.take(i).contains(' ') {
        let j = choose|j: int| 0 <= j < cm.take(i).len() && cm.take(i)[j] == ' ';
        assert(cm[j] == ' ');
    }
    assert(i != 0);
}

/// `SUB`, `UNSUB`, `PSUB` and `PUNSUB`: the line is refused where a word of the
/// arguments is not ASCII.
pub proof fn lemma_parse_list_not_ascii(cmd: Seq<char>, w: Seq<char>, rest: Seq<char>)
    requires
        split_once(trim(cmd), ' ') == Some((w, rest)),
        w == kw_sub() || w == kw_unsub() || w == kw_psub() || w == kw_punsub(),
        !every_word_ascii(rest),
    ensures
        spec_parse(cmd) == Err::<CommandModel, CommandParsingError>(
            CommandParsingError::ChannelNameNotAscii,
        ),
        !parse_panics(cmd),
{
    lemma_keywords_differ();
    lemma_arguments_not_blank(cmd, w, rest);
    lemma_words_ascii_by_word(rest);
}

/// `SUB`, `UNSUB`, `PSUB` and `PUNSUB` whose words are all ASCII are accepted,
/// each with an empty list (the ASCII check runs the word iterator to its end).
pub proof fn lemma_parse_list_ascii(cmd: Seq<char>, w: Seq<char>, rest: Seq<char>)
    requires
        split_once(trim(cmd), ' ') == Some((w, rest)),
        every_word_ascii(rest),
    ensures
        w == kw_sub() ==> spec_parse(cmd) == (Ok::<CommandModel, CommandParsingError>(
            CommandModel::Sub { channels: Seq::empty() },
        )),
        w == kw_unsub() ==> spec_parse(cmd) == (Ok::<CommandModel, CommandParsingError>(
            CommandModel::UnSub { channels: ChanListModel::Many(Seq::empty()) },
        )),
        w == kw_psub() ==> spec_parse(cmd) == (Ok::<CommandModel, CommandParsingError>(
            CommandModel::PSub { channel_patterns: Seq::empty() },
        )),
        w == kw_punsub() ==> spec_parse(cmd) == (Ok::<CommandModel, CommandParsingError>(
            CommandModel::PUnSub { channel_patterns: Seq::empty() },
        )),
        w != kw_pubsub() ==> !parse_panics(cmd),
{
    lemma_keywords_differ();
    lemma_arguments_not_blank(cmd, w, rest);
    lemma_words_ascii_by_word(rest);
}

/// The parser gives up on a line exactly where its command word is `PUBSUB`
/// and no space follows the sub-command.
pub proof fn lemma_parse_panics_only_on_pubsub(cmd: Seq<char>, w: Seq<char>, rest: Seq<char>)
    requires
        split_once(trim(cmd), ' ') == Some((w, rest)),
    ensures
        parse_panics(cmd) <==> (w == kw_pubsub() && !rest.contains(' ')),
{
    lemma_keywords_differ();
    lemma_arguments_not_blank(cmd, w, rest);
}

/// `PUBSUB CHANS`: the pattern is the rest of the line after the sub-command;
/// it must hold no space and be ASCII, and is then handed back.
pub proof fn lemma_parse_pubsub_chans(
    cmd: Seq<char>,
    rest: Seq<char>,
    sub: Seq<char>,
    args: Seq<char>,
)
    requires
        split_once(trim(cmd), ' ') == Some((kw_pubsub(), rest)),
        split_once(rest, ' ') == Some((sub, args)),
        trim(sub) == kw_chans(),
    ensures
        !parse_panics(cmd),
        args.contains(' ') ==> spec_parse(cmd) == Err::<CommandModel, CommandParsingError>(
            CommandParsingError::PubSubChannelsMutipleArgs,
        ),
        !args.contains(' ') && !vstd::utf8::is_ascii_chars(args) ==> spec_parse(cmd) == Err::<
            CommandModel,
            CommandParsingError,
        >(CommandParsingError::ChannelNameNotAscii),
        !args.contains(' ') && vstd::utf8::is_ascii_chars(args) ==> spec_parse(cmd) == (Ok::<
            CommandModel,
            CommandParsingError,
        >(CommandModel::PubSub(PubSubSubCmdModel::Channels { channel_pattern: Some(args) }))),
{
    lemma_keywords_differ();
    lemma_arguments_not_blank(cmd, kw_pubsub(), rest);
    lemma_find_char_contains(rest, ' ');
    lemma_split_tail(rest, ' ');
    lemma_trim_keeps_last(args);
}

/// `PUBSUB NUMSUB` is refused where a word of its arguments is not ASCII, and
/// accepted otherwise with an empty list; any sub-command other than `CHANS`
/// and `NUMSUB` is unknown.
pub proof fn lemma_parse_pubsub_other(
    cmd: Seq<char>,
    rest: Seq<char>,
    sub: Seq<char>,
    args: Seq<char>,
)
    requires
        split_once(trim(cmd), ' ') == Some((kw_pubsub(), rest)),
        split_once(rest, ' ') == Some((sub, args)),
        trim(sub) != kw_chans(),
    ensures
        !parse_panics(cmd),
        trim(sub) == kw_numsub() && !every_word_ascii(args) ==> spec_parse(cmd) == Err::<
            CommandModel,
            CommandParsingError,
        >(CommandParsingError::ChannelNameNotAscii),
        trim(sub) == kw_numsub() && every_word_ascii(args) ==> spec_parse(cmd) == (Ok::<
            CommandModel,
            CommandParsingError,
        >(CommandModel::PubSub(PubSubSubCmdModel::NumSub { channels: Seq::empty() }))),
        trim(sub) != kw_numsub() ==> spec_parse(cmd) == Err::<CommandModel, CommandParsingError>(
            CommandParsingError::PubSubUnknownCommand,
        ),
{
    lemma_keywords_differ();
    lemma_arguments_not_blank(cmd, kw_pubsub(), rest);
    lemma_find_char_contains(rest, ' ');
    lemma_split_tail(rest, ' ');
    lemma_trim_keeps_last(args);
    lemma_words_ascii_by_word(args);
}

/// Splits `v[lo..hi]` at its first space, as positions in `v`.
fn split_range(v: &Vec<char>, lo: usize, hi: usize) -> (r: Option<usize>)
    requires
        lo <= hi <= v@.len(),
    ensures
        match r {
            Some(k) => lo <= k < hi && split_once(v@.subrange(lo as int, hi as int), ' ') == Some(
                (v@.subrange(lo as int, k as int), v@.subrange(k + 1, hi as int)),
            ),
            None => split_once(v@.subrange(lo as int, hi as int), ' ') is None,
        },
{
    let r = find_in_range(v, lo, hi, ' ');
    if let Some(k) = r {
        let ghost s = v@.subrange(lo as int, hi as int);
        assert(s.take(k - lo) =~= v@.subrange(lo as int, k as int));
        assert(s.skip(k - lo + 1) =~= v@.subrange(k + 1, hi as int));
    }
    r
}

/// Whether `v[lo..hi]` is empty once trimmed.
fn blank_range(v: &Vec<char>, lo: usize, hi: usize) -> (b: bool)
    requires
        lo <= hi <= v@.len(),
    ensures
        b == (trim(v@.subrange(lo as int, hi as int)).len() == 0),
{
    let (a, b) = trim_range(v, lo, hi);
    a == b
}

/// Whether `v[lo..hi]` holds a space.
fn has_space(v: &Vec<char>, lo: usize, hi: usize) -> (b: bool)
    requires
        lo <= hi <= v@.len(),
    ensures
        b == v@.subrange(lo as int, hi as int).contains(' '),
{
    proof {
        lemma_find_char_contains(v@.subrange(lo as int, hi as int), ' ');
    }
    find_in_range(v, lo, hi, ' ').is_some()
}

/// Whether a line is one on which [`parse_cmd`] cannot be called: a `PUBSUB`
/// whose arguments hold no space.
pub fn parse_would_panic(cmd: &str) -> (b: bool)
    ensures
        b == parse_panics(cmd@),
{
    let v = chars_of(cmd);
    let n = v.len();
    assert(v@.subrange(0, n as int) =~= v@);
    let (a, b) = trim_range(&v, 0, n);
    match split_range(&v, a, b) {
        None => false,
        Some(sp) => {
            let kw: [char; 6] = ['P', 'U', 'B', 'S', 'U', 'B'];
            assert(kw@ =~= kw_pubsub());
            range_is(&v, a, sp, &kw) && !blank_range(&v, sp + 1, b) && !has_space(&v, sp + 1, b)
        },
    }
}

/// Parses one line of the protocol into a [`Command`].
pub fn parse_cmd<'a>(cmd: &'a str) -> (r: Result<Command<'a>, CommandParsingError>)
    requires
        !parse_panics(cmd@),
    ensures
        parsed(r) == spec_parse(cmd@),
{
    let v = chars_of(cmd);
    let n = v.len();
    assert(v@.subrange(0, n as int) =~= v@);
    let (a, b) = trim_range(&v, 0, n);
    let sp = match split_range(&v, a, b) {
        None => return Err(CommandParsingError::MalformedCommand),
        Some(sp) => sp,
    };
    let ghost rest = v@.subrange(sp + 1, b as int);
    let kw_pub_c: [char; 3] = ['P', 'U', 'B'];
    let kw_sub_c: [char; 3] = ['S', 'U', 'B'];
    let kw_unsub_c: [char; 5] = ['U', 'N', 'S', 'U', 'B'];
    let kw_psub_c: [char; 4] = ['P', 'S', 'U', 'B'];
    let kw_punsub_c: [char; 6] = ['P', 'U', 'N', 'S', 'U', 'B'];
    let kw_pubsub_c: [char; 6] = ['P', 'U', 'B', 'S', 'U', 'B'];
    assert(kw_pub_c@ =~= kw_pub());
    assert(kw_sub_c@ =~= kw_sub());
    assert(kw_unsub_c@ =~= kw_unsub());
    assert(kw_psub_c@ =~= kw_psub());
    assert(kw_punsub_c@ =~= kw_punsub());
    assert(kw_pubsub_c@ =~= kw_pubsub());
    if range_is(&v, a, sp, &kw_pub_c) {
        let c0 = trim_start_range(&v, sp + 1, b);
        if c0 == b {
            return Err(CommandParsingError::PubWithNoArgs);
        }
        match split_range(&v, c0, b) {
            None => Err(CommandParsingError::PubWithBadArgs),
            Some(k) => Ok(
                Command::Pub {
                    channel: cmd.substring_char(c0, k),
                    message: cmd.substring_char(k + 1, b),
                },
            ),
        }
    } else if range_is(&v, a, sp, &kw_sub_c) {
        if blank_range(&v, sp + 1, b) {
            Err(CommandParsingError::PSubWithNoArgs)
        } else if !range_words_ascii(&v, sp + 1, b) {
            Err(CommandParsingError::ChannelNameNotAscii)
        } else {
            Ok(Command::Sub { channels: no_texts() })
        }
    } else if range_is(&v, a, sp, &kw_unsub_c) {
        if blank_range(&v, sp + 1, b) {
            Ok(Command::UnSub { channels: ChanList::All })
        } else if !range_words_ascii(&v, sp + 1, b) {
            Err(CommandParsingError::ChannelNameNotAscii)
        } else {
            Ok(Command::UnSub { channels: ChanList::Many(no_texts()) })
        }
    } else if range_is(&v, a, sp, &kw_psub_c) {
        if blank_range(&v, sp + 1, b) {
            Err(CommandParsingError::PSubWithNoArgs)
        } else if !range_words_ascii(&v, sp + 1, b) {
            Err(CommandParsingError::ChannelNameNotAscii)
        } else {
            Ok(Command::PSub { channel_patterns: no_texts() })
        }
    } else if range_is(&v, a, sp, &kw_punsub_c) {
        if blank_range(&v, sp + 1, b) {
            Err(CommandParsingError::PSubWithNoArgs)
        } else if !range_words_ascii(&v, sp + 1, b) {
            Err(CommandParsingError::ChannelNameNotAscii)
        } else {
            Ok(Command::PUnSub { channel_patterns: no_texts() })
        }
    } else if range_is(&v, a, sp, &kw_pubsub_c) {
        parse_pubsub_args(cmd, &v, sp + 1, b)
    } else {
        Err(CommandParsingError::MalformedCommand)
    }
}

/// The `PUBSUB` branch of [`parse_cmd`], on the arguments `cmd[lo..hi]`.
fn parse_pubsub_args<'a>(cmd: &'a str, v: &Vec<char>, lo: usize, hi: usize) -> (r: Result<
    Command<'a>,
    CommandParsingError,
>)
    requires
        v@ == cmd@,
        lo <= hi <= v@.len(),
        trim(v@.subrange(lo as int, hi as int)).len() != 0 ==> v@.subrange(
            lo as int,
            hi as int,
        ).contains(' '),
    ensures
        parsed(r) == spec_parse_pubsub(v@.subrange(lo as int, hi as int)),
{
    if blank_range(v, lo, hi) {
        return Err(CommandParsingError::PubSubWithNoArgs);
    }
    proof {
        lemma_find_char_contains(v@.subrange(lo as int, hi as int), ' ');
    }
    let k = match split_range(v, lo, hi) {
        None => return Err(CommandParsingError::PubSubUnknownCommand),
        Some(k) => k,
    };
    let (na, nb) = trim_range(v, lo, k);
    let kw_chans_c: [char; 5] = ['C', 'H', 'A', 'N', 'S'];
    let kw_numsub_c: [char; 6] = ['N', 'U', 'M', 'S', 'U', 'B'];
    assert(kw_chans_c@ =~= kw_chans());
    assert(kw_numsub_c@ =~= kw_numsub());
    if range_is(v, na, nb, &kw_chans_c) {
        if blank_range(v, k + 1, hi) {
            Ok(Command::PubSub(PubSubSubCmd::Channels { channel_pattern: None }))
        } else if has_space(v, k + 1, hi) {
            Err(CommandParsingError::PubSubChannelsMutipleArgs)
        } else {
            let args = cmd.substring_char(k + 1, hi);
            if !args.is_ascii() {
                Err(CommandParsingError::ChannelNameNotAscii)
            } else {
                Ok(Command::PubSub(PubSubSubCmd::Channels { channel_pattern: Some(args) }))
            }
        }
    } else if range_is(v, na, nb, &kw_numsub_c) {
        if blank_range(v, k + 1, hi) {
            Err(CommandParsingError::PubSubNumSubNoArgs)
        } else if !range_words_ascii(v, k + 1, hi) {
            Err(CommandParsingError::ChannelNameNotAscii)
        } else {
            Ok(Command::PubSub(PubSubSubCmd::NumSub { channels: no_texts() }))
        }
    } else {
        Err(CommandParsingError::PubSubUnknownCommand)
    }
}

} // verus!
