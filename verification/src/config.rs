use vstd::prelude::*;
use vstd::string::*;
use crate::encoding::same_text;
use crate::error::GrepError;

verus! {

/// The long spelling of the flag that turns on case-insensitive matching.
pub const OPTION_CASE_INSENSITIVE_LONG: &'static str = "--case-insensitive";

/// The short spelling of the flag that turns on case-insensitive matching.
pub const OPTION_CASE_INSENSITIVE_SHORT: &'static str = "-i";

/// A token is flag-like when it begins with a dash.
pub open spec fn is_flag(token: Seq<char>) -> bool {
    token.len() > 0 && token[0] == '-'
}

/// The flag-like tokens of a command line, in their original order.
pub open spec fn flag_tokens(tokens: Seq<Seq<char>>) -> Seq<Seq<char>> {
    tokens.filter(|token: Seq<char>| is_flag(token))
}

/// The positional tokens of a command line, in their original order.
/// The program name, unless it begins with a dash, is the first of them.
pub open spec fn positional_tokens(tokens: Seq<Seq<char>>) -> Seq<Seq<char>> {
    tokens.filter(|token: Seq<char>| !is_flag(token))
}

/// Whether one of the tokens asks for case-insensitive matching.
pub open spec fn requests_case_insensitive(tokens: Seq<Seq<char>>) -> bool {
    flag_tokens(tokens).contains(OPTION_CASE_INSENSITIVE_LONG@) || flag_tokens(tokens).contains(
        OPTION_CASE_INSENSITIVE_SHORT@,
    )
}

/// Optional settings of a search.
#[derive(Debug)]
pub struct ConfigOptions {
    pub case_insensitive: bool,
}

/// What to search for and where, as given on the command line.
#[derive(Debug)]
pub struct Config<'a> {
    pub query: &'a str,
    pub filepath: &'a str,
    pub options: Option<ConfigOptions>,
}

/// The mathematical content of a [`Config`].
pub struct ConfigView {
    pub query: Seq<char>,
    pub filepath: Seq<char>,
    pub case_insensitive: bool,
}

impl<'a> View for Config<'a> {
    type V = ConfigView;

    open spec fn view(&self) -> ConfigView {
        ConfigView {
            query: self.query@,
            filepath: self.filepath@,
            case_insensitive: self.options matches Some(options) && options.case_insensitive,
        }
    }
}

/// What a command line asks for. Position 0 of the positional tokens is the
/// program name, position 1 the query and position 2 the file path; further
/// positional tokens and unrecognized flags are ignored.
pub open spec fn parse_args(tokens: Seq<Seq<char>>) -> Result<ConfigView, GrepError> {
    let positionals = positional_tokens(tokens);
    if positionals.len() < 3 {
        Err(GrepError::InsufficientArguments)
    } else {
        Ok(
            ConfigView {
                query: positionals[1],
                filepath: positionals[2],
                case_insensitive: requests_case_insensitive(tokens),
            },
        )
    }
}

/// Whether `token` is one of the two spellings of the case-insensitivity flag.
pub open spec fn is_case_flag(token: Seq<char>) -> bool {
    token == OPTION_CASE_INSENSITIVE_LONG@ || token == OPTION_CASE_INSENSITIVE_SHORT@
}

/// Case-insensitive matching is requested exactly when some token, at
/// whatever position, is one of the two spellings of the flag.
pub proof fn lemma_case_flag_anywhere(tokens: Seq<Seq<char>>)
    ensures
        requests_case_insensitive(tokens) <==> exists|i: int|
            0 <= i < tokens.len() && is_case_flag(#[trigger] tokens[i]),
{
    reveal_strlit("--case-insensitive");
    reveal_strlit("-i");
    let flag_like = |token: Seq<char>| is_flag(token);
    if requests_case_insensitive(tokens) {
        let spelling = if flag_tokens(tokens).contains(OPTION_CASE_INSENSITIVE_LONG@) {
            OPTION_CASE_INSENSITIVE_LONG@
        } else {
            OPTION_CASE_INSENSITIVE_SHORT@
        };
        tokens.lemma_filter_contains_rev(flag_like, spelling);
        let i = choose|i: int| 0 <= i < tokens.len() && tokens[i] == spelling;
        assert(is_case_flag(tokens[i]));
    }
    if exists|i: int| 0 <= i < tokens.len() && is_case_flag(#[trigger] tokens[i]) {
        let i = choose|i: int| 0 <= i < tokens.len() && is_case_flag(#[trigger] tokens[i]);
        assert(is_flag(tokens[i]));
        tokens.lemma_filter_contains(flag_like, i);
    }
}

/// A command line that supplies fewer than two positional tokens after its
/// first token is rejected for want of arguments.
pub proof fn lemma_too_few_positionals(tokens: Seq<Seq<char>>)
    requires
        tokens.len() > 0,
        positional_tokens(tokens.skip(1)).len() < 2,
    ensures
        parse_args(tokens) == Err::<ConfigView, GrepError>(GrepError::InsufficientArguments),
{
    let positional = |token: Seq<char>| !is_flag(token);
    assert(tokens =~= seq![tokens[0]] + tokens.skip(1));
    Seq::filter_distributes_over_add(seq![tokens[0]], tokens.skip(1), positional);
    seq![tokens[0]].lemma_filter_len(positional);
}

/// Putting a spelling of the case-insensitivity flag anywhere into a command
/// line turns case-insensitive matching on and changes nothing else.
pub proof fn lemma_case_flag_insertion(tokens: Seq<Seq<char>>, at: int, flag: Seq<char>)
    requires
        0 <= at <= tokens.len(),
        is_case_flag(flag),
    ensures
        positional_tokens(tokens.insert(at, flag)) == positional_tokens(tokens),
        requests_case_insensitive(tokens.insert(at, flag)),
        parse_args(tokens) matches Ok(config) ==> parse_args(tokens.insert(at, flag)) == Ok::<
            ConfigView,
            GrepError,
        >(ConfigView { case_insensitive: true, ..config }),
        parse_args(tokens) is Err ==> parse_args(tokens.insert(at, flag)) == parse_args(tokens),
{
    reveal_strlit("--case-insensitive");
    reveal_strlit("-i");
    let positional = |token: Seq<char>| !is_flag(token);
    let longer = tokens.insert(at, flag);
    assert(longer =~= tokens.take(at) + seq![flag] + tokens.skip(at));
    assert(tokens =~= tokens.take(at) + tokens.skip(at));
    Seq::filter_distributes_over_add(tokens.take(at) + seq![flag], tokens.skip(at), positional);
    Seq::filter_distributes_over_add(tokens.take(at), seq![flag], positional);
    Seq::filter_distributes_over_add(tokens.take(at), tokens.skip(at), positional);
    assert(seq![flag].filter(positional) =~= Seq::empty()) by {
        reveal_with_fuel(Seq::filter, 2);
    }
    assert(positional_tokens(longer) =~= positional_tokens(tokens));
    assert(is_case_flag(longer[at]));
    lemma_case_flag_anywhere(longer);
}

/// Tells whether `token` is flag-like.
pub fn token_is_flag(token: &str) -> (flag: bool)
    ensures
        flag == is_flag(token@),
{
    !token.is_empty() && token.get_char(0) == '-'
}

/// Splits a command line into its flag-like tokens and its positional tokens.
/// Each bucket keeps the order in which its tokens were given.
pub fn partition_args<'a>(args: &'a Vec<String>) -> (buckets: (Vec<&'a str>, Vec<&'a str>))
    ensures
        buckets.0.deep_view() == flag_tokens(args.deep_view()),
        buckets.1.deep_view() == positional_tokens(args.deep_view()),
{
    let mut flags: Vec<&'a str> = Vec::new();
    let mut positionals: Vec<&'a str> = Vec::new();
    let ghost tokens = args.deep_view();
    proof {
        reveal(Seq::filter);
        assert(tokens.take(0) =~= Seq::empty());
    }
    let mut i: usize = 0;
    while i < args.len()
        invariant
            i <= args.len(),
            tokens == args.deep_view(),
            flags.deep_view() == flag_tokens(tokens.take(i as int)),
            positionals.deep_view() == positional_tokens(tokens.take(i as int)),
        decreases args.len() - i,
    {
        let token = args[i].as_str();
        proof {
            let seen = tokens.take(i as int);
            assert(tokens.take(i + 1) =~= seen.push(token@));
            seen.lemma_filter_push(token@, |token: Seq<char>| is_flag(token));
            seen.lemma_filter_push(token@, |token: Seq<char>| !is_flag(token));
        }
        let ghost old_flags = flags.deep_view();
        let ghost old_positionals = positionals.deep_view();
        if token_is_flag(token) {
            flags.push(token);
            assert(flags.deep_view() =~= old_flags.push(token@));
        } else {
            positionals.push(token);
            assert(positionals.deep_view() =~= old_positionals.push(token@));
        }
        i += 1;
    }
    assert(tokens.take(i as int) =~= tokens);
    (flags, positionals)
}

/// Tells whether `wanted` is one of `tokens`.
pub fn has_token(tokens: &Vec<&str>, wanted: &str) -> (found: bool)
    ensures
        found == tokens.deep_view().contains(wanted@),
{
    let mut i: usize = 0;
    while i < tokens.len()
        invariant
            i <= tokens.len(),
            forall|k: int| 0 <= k < i ==> tokens.deep_view()[k] != wanted@,
        decreases tokens.len() - i,
    {
        if same_text(tokens[i], wanted) {
            assert(tokens.deep_view()[i as int] == wanted@);
            return true;
        }
        i += 1;
    }
    false
}

impl<'a> Config<'a> {
    /// Tells whether the search is to ignore the case of letters.
    pub fn case_insensitive(&self) -> (on: bool)
        ensures
            on == self@.case_insensitive,
    {
        match &self.options {
            Some(options) => options.case_insensitive,
            None => false,
        }
    }

    /// Reads a configuration off a command line whose first token is the
    /// program name. Fails when the positional tokens do not supply a query
    /// and a file path.
    pub fn new(args: &'a Vec<String>) -> (result: Result<Config<'a>, GrepError>)
        ensures
            match result {
                Ok(config) => parse_args(args.deep_view()) == Ok::<ConfigView, GrepError>(config@)
                    && (config.options is Some <==> config@.case_insensitive),
                Err(error) => parse_args(args.deep_view()) == Err::<ConfigView, GrepError>(error),
            },
            result is Err <==> positional_tokens(args.deep_view()).len() < 3,
            args.len() < 3 ==> result == Err::<Config<'a>, GrepError>(
                GrepError::InsufficientArguments,
            ),
    {
        proof {
            args.deep_view().lemma_filter_len(|token: Seq<char>| !is_flag(token));
        }
        if args.len() < 3 {
            return Err(GrepError::InsufficientArguments);
        }
        let (flags, positionals) = partition_args(args);
        if positionals.len() < 3 {
            return Err(GrepError::InsufficientArguments);
        }
        let query = positionals[1];
        let filepath = positionals[2];
        let mut config = Config { query, filepath, options: None };
        if has_token(&flags, OPTION_CASE_INSENSITIVE_LONG) || has_token(
            &flags,
            OPTION_CASE_INSENSITIVE_SHORT,
        ) {
            config.options = Some(ConfigOptions { case_insensitive: true });
        }
        Ok(config)
    }
}

} // verus!
