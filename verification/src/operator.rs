//! The operator command language: a small line-based grammar of
//! whitespace-separated tokens, with `key=value` arguments for the
//! configuration command.

use vstd::prelude::*;
use vstd::string::*;

use crate::session::Config;
use crate::util::{dec_value, find_char, is_dec_digits, parse_dec_u64, split_first, str_eq};

verus! {

/// One operator command.
#[derive(Debug)]
pub enum Command {
    /// Quit the broker after draining all clients.
    Stop,
    /// Open a new client session to the given address.
    Connect(String),
    /// Stop the client with the given index.
    Kick(u64),
    /// List the active clients.
    List,
    /// Update the default configuration for new clients.
    Config(Config),
}

/// The mathematical shape of an operator command.
pub ghost enum CommandView {
    Stop,
    Connect(Seq<char>),
    Kick(u64),
    List,
    Config(Config),
}

impl View for Command {
    type V = CommandView;

    open spec fn view(&self) -> CommandView {
        match self {
            Command::Stop => CommandView::Stop,
            Command::Connect(a) => CommandView::Connect(a@),
            Command::Kick(i) => CommandView::Kick(*i),
            Command::List => CommandView::List,
            Command::Config(c) => CommandView::Config(*c),
        }
    }
}

/// A parse failure.
#[derive(Debug)]
pub enum Error {
    /// An operation the grammar does not support.
    Unsupported,
    /// More tokens were needed.
    UnexpectedEof,
    /// Trailing tokens were left.
    ExpectedEof,
    /// A token that does not fit its place; carries the token.
    SyntaxError(String),
    /// Any other failure; carries a description.
    Other(String),
}

/// The mathematical shape of a parse failure.
pub ghost enum ErrorView {
    Unsupported,
    UnexpectedEof,
    ExpectedEof,
    SyntaxError(Seq<char>),
    Other(Seq<char>),
}

impl View for Error {
    type V = ErrorView;

    open spec fn view(&self) -> ErrorView {
        match self {
            Error::Unsupported => ErrorView::Unsupported,
            Error::UnexpectedEof => ErrorView::UnexpectedEof,
            Error::ExpectedEof => ErrorView::ExpectedEof,
            Error::SyntaxError(t) => ErrorView::SyntaxError(t@),
            Error::Other(m) => ErrorView::Other(m@),
        }
    }
}

/// One `key=value` token folded into a configuration; tokens with unknown
/// keys are ignored, a token without `=` or with a bad value fails.
pub open spec fn config_token(c: Config, tok: Seq<char>) -> Result<Config, ErrorView> {
    match find_char(tok, '=') {
        Some(i) => {
            let key = tok.take(i as int);
            let val = tok.skip(i as int + 1);
            if key == "max_fd_count"@ {
                if is_dec_digits(val) && dec_value(val) <= usize::MAX {
                    Ok(Config { max_fd_count: Some(dec_value(val) as usize), ..c })
                } else {
                    Err(ErrorView::SyntaxError(val))
                }
            } else if key == "inheritance"@ {
                if val == "true"@ || val == "1"@ || val == "on"@ {
                    Ok(Config { inheritance: Some(true), ..c })
                } else if val == "false"@ || val == "0"@ || val == "off"@ {
                    Ok(Config { inheritance: Some(false), ..c })
                } else {
                    Err(ErrorView::SyntaxError(val))
                }
            } else if key == "refresh_interval"@ {
                if is_dec_digits(val) && dec_value(val) <= u32::MAX {
                    Ok(Config { refresh_interval: Some(dec_value(val) as u32), ..c })
                } else {
                    Err(ErrorView::SyntaxError(val))
                }
            } else {
                Ok(c)
            }
        },
        None => Err(ErrorView::UnexpectedEof),
    }
}

/// The `key=value` tokens from a position on, folded left to right.
pub open spec fn parse_config_tokens(toks: Seq<Seq<char>>, i: int, c: Config) -> Result<
    Config,
    ErrorView,
>
    decreases toks.len() - i,
{
    if i >= toks.len() {
        Ok(c)
    } else {
        match config_token(c, toks[i]) {
            Ok(c2) => parse_config_tokens(toks, i + 1, c2),
            Err(e) => Err(e),
        }
    }
}

/// The operator grammar over one line's tokens.
pub open spec fn parse_tokens(toks: Seq<Seq<char>>) -> Result<CommandView, ErrorView> {
    if toks.len() == 0 {
        Err(ErrorView::UnexpectedEof)
    } else if toks[0] == "stop"@ {
        Ok(CommandView::Stop)
    } else if toks[0] == "list"@ {
        Ok(CommandView::List)
    } else if toks[0] == "connect"@ {
        if toks.len() >= 2 {
            Ok(CommandView::Connect(toks[1]))
        } else {
            Err(ErrorView::UnexpectedEof)
        }
    } else if toks[0] == "kick"@ {
        if toks.len() >= 2 {
            if is_dec_digits(toks[1]) && dec_value(toks[1]) <= u64::MAX {
                Ok(CommandView::Kick(dec_value(toks[1]) as u64))
            } else {
                Err(ErrorView::SyntaxError(toks[1]))
            }
        } else {
            Err(ErrorView::UnexpectedEof)
        }
    } else if toks[0] == "config"@ {
        match parse_config_tokens(
            toks,
            1,
            Config { max_fd_count: None, inheritance: None, refresh_interval: None },
        ) {
            Ok(c) => Ok(CommandView::Config(c)),
            Err(e) => Err(e),
        }
    } else {
        Err(ErrorView::Other("unknown command"@))
    }
}

/// A streaming reader over the tokens of one operator line.
pub struct CommandDeserializer {
    args: Vec<String>,
}

impl View for CommandDeserializer {
    type V = Seq<Seq<char>>;

    closed spec fn view(&self) -> Seq<Seq<char>> {
        crate::util::strings_view(self.args@)
    }
}

impl CommandDeserializer {
    /// A reader over the given tokens.
    pub fn new(args: Vec<String>) -> (r: CommandDeserializer)
        ensures
            r@ == crate::util::strings_view(args@),
    {
        CommandDeserializer { args }
    }

    /// Parses the tokens as one operator command.
    pub fn parse_command(&self) -> (r: Result<Command, Error>)
        ensures
            match r {
                Ok(c) => parse_tokens(self@) == Ok::<CommandView, ErrorView>(c@),
                Err(e) => parse_tokens(self@) == Err::<CommandView, ErrorView>(e@),
            },
    {
        if self.args.len() == 0 {
            return Err(Error::UnexpectedEof);
        }
        let head = &self.args[0];
        if str_eq(head.as_str(), "stop") {
            Ok(Command::Stop)
        } else if str_eq(head.as_str(), "list") {
            Ok(Command::List)
        } else if str_eq(head.as_str(), "connect") {
            if self.args.len() >= 2 {
                Ok(Command::Connect(self.args[1].clone()))
            } else {
                Err(Error::UnexpectedEof)
            }
        } else if str_eq(head.as_str(), "kick") {
            if self.args.len() >= 2 {
                match parse_dec_u64(self.args[1].as_str()) {
                    Some(v) => Ok(Command::Kick(v)),
                    None => Err(Error::SyntaxError(self.args[1].clone())),
                }
            } else {
                Err(Error::UnexpectedEof)
            }
        } else if str_eq(head.as_str(), "config") {
            let mut cfg = Config { max_fd_count: None, inheritance: None, refresh_interval: None };
            let n = self.args.len();
            let mut i: usize = 1;
            while i < n
                invariant
                    1 <= i <= n,
                    n == self@.len(),
                    self@[0] == "config"@,
                    self@[0] != "stop"@,
                    self@[0] != "list"@,
                    self@[0] != "connect"@,
                    self@[0] != "kick"@,
                    parse_config_tokens(self@, 1, Config {
                        max_fd_count: None,
                        inheritance: None,
                        refresh_interval: None,
                    }) == parse_config_tokens(self@, i as int, cfg),
                decreases n - i,
            {
                match self.config_step(cfg, i) {
                    Ok(c2) => {
                        cfg = c2;
                    },
                    Err(e) => {
                        return Err(e);
                    },
                }
                i += 1;
            }
            Ok(Command::Config(cfg))
        } else {
            Err(Error::Other(String::from_str("unknown command")))
        }
    }

    /// Folds one `key=value` token into the configuration.
    fn config_step(&self, c: Config, i: usize) -> (r: Result<Config, Error>)
        requires
            i < self@.len(),
        ensures
            match r {
                Ok(c2) => config_token(c, self@[i as int]) == Ok::<Config, ErrorView>(c2),
                Err(e) => config_token(c, self@[i as int]) == Err::<Config, ErrorView>(e@),
            },
    {
        let tok = &self.args[i];
        let (key, valopt) = split_first(tok.as_str(), '=');
        match valopt {
            Some(val) => {
                if str_eq(key.as_str(), "max_fd_count") {
                    match parse_dec_u64(val.as_str()) {
                        Some(v) => {
                            if v <= usize::MAX as u64 {
                                Ok(Config { max_fd_count: Some(v as usize), ..c })
                            } else {
                                Err(Error::SyntaxError(val))
                            }
                        },
                        None => Err(Error::SyntaxError(val)),
                    }
                } else if str_eq(key.as_str(), "inheritance") {
                    if str_eq(val.as_str(), "true") || str_eq(val.as_str(), "1") || str_eq(
                        val.as_str(),
                        "on",
                    ) {
                        Ok(Config { inheritance: Some(true), ..c })
                    } else if str_eq(val.as_str(), "false") || str_eq(val.as_str(), "0") || str_eq(
                        val.as_str(),
                        "off",
                    ) {
                        Ok(Config { inheritance: Some(false), ..c })
                    } else {
                        Err(Error::SyntaxError(val))
                    }
                } else if str_eq(key.as_str(), "refresh_interval") {
                    match parse_dec_u64(val.as_str()) {
                        Some(v) => {
                            if v <= u32::MAX as u64 {
                                Ok(Config { refresh_interval: Some(v as u32), ..c })
                            } else {
                                Err(Error::SyntaxError(val))
                            }
                        },
                        None => Err(Error::SyntaxError(val)),
                    }
                } else {
                    Ok(c)
                }
            },
            None => Err(Error::UnexpectedEof),
        }
    }
}

} // verus!
