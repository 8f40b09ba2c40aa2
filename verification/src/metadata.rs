//! Immutable description of a span or event: name, target, level and the
//! optional module path, file path and line number.

use vstd::prelude::*;
use vstd::string::*;

verus! {

/// Log level of a span or event.
#[derive(Clone, Copy, Debug, PartialEq, Eq, Structural)]
pub enum Level {
    Trace,
    Debug,
    Info,
    Warning,
    Error,
}

/// The textual form of a level.
pub open spec fn level_text(l: Level) -> Seq<char> {
    match l {
        Level::Trace => "Trace"@,
        Level::Debug => "Debug"@,
        Level::Info => "Info"@,
        Level::Warning => "Warning"@,
        Level::Error => "Error"@,
    }
}

impl Level {
    /// Renders the level as it appears in rows and operator lines.
    pub fn to_text(&self) -> (r: String)
        ensures
            r@ == level_text(*self),
    {
        match self {
            Level::Trace => String::from_str("Trace"),
            Level::Debug => String::from_str("Debug"),
            Level::Info => String::from_str("Info"),
            Level::Warning => String::from_str("Warning"),
            Level::Error => String::from_str("Error"),
        }
    }
}

/// Immutable description of a span or event.
#[derive(Clone, Debug)]
pub struct Metadata {
    /// The name of the span or event.
    pub name: String,
    /// The target of the span or event.
    pub target: String,
    /// The log level of the span or event.
    pub level: Level,
    /// The module path, including the crate name.
    pub module: Option<String>,
    /// The source file path.
    pub file: Option<String>,
    /// The line number in the source file.
    pub line: Option<u32>,
}

/// Position of the first `::` in a character sequence.
pub open spec fn find_dcolon(s: Seq<char>) -> Option<nat>
    decreases s.len(),
{
    if s.len() < 2 {
        None
    } else if s[0] == ':' && s[1] == ':' {
        Some(0nat)
    } else {
        match find_dcolon(s.drop_first()) {
            Some(i) => Some((i + 1) as nat),
            None => None,
        }
    }
}

proof fn lemma_find_dcolon_some(s: Seq<char>, i: int)
    requires
        0 <= i,
        i + 1 < s.len(),
        s[i] == ':' && s[i + 1] == ':',
        forall|j: int| 0 <= j < i ==> !((#[trigger] s[j]) ==  ':' && s[j + 1] == ':'),
    ensures
        find_dcolon(s) == Some(i as nat),
    decreases s.len(),
{
    if i == 0 {
    } else {
        assert forall|j: int| 0 <= j < i - 1 implies !((#[trigger] s.drop_first()[j]) == ':'
            && s.drop_first()[j + 1] == ':') by {
            assert(s.drop_first()[j] == s[j + 1]);
            assert(s.drop_first()[j + 1] == s[j + 2]);
        }
        assert(s.drop_first()[i - 1] == s[i] && s.drop_first()[i] == s[i + 1]);
        lemma_find_dcolon_some(s.drop_first(), i - 1);
    }
}

proof fn lemma_find_dcolon_none(s: Seq<char>)
    requires
        forall|j: int| 0 <= j && j + 1 < s.len() ==> !((#[trigger] s[j]) ==  ':' && s[j + 1] == ':'),
    ensures
        find_dcolon(s) is None,
    decreases s.len(),
{
    if s.len() < 2 {
    } else {
        assert forall|j: int|
            0 <= j && j + 1 < s.drop_first().len() implies !((#[trigger] s.drop_first()[j]) == ':'
            && s.drop_first()[j + 1] == ':') by {
            assert(s.drop_first()[j] == s[j + 1]);
            assert(s.drop_first()[j + 1] == s[j + 2]);
        }
        lemma_find_dcolon_none(s.drop_first());
    }
}

/// The mathematical shape of a metadata: its strings as character sequences.
pub ghost struct MetadataView {
    pub name: Seq<char>,
    pub target: Seq<char>,
    pub level: Level,
    pub module: Option<Seq<char>>,
    pub file: Option<Seq<char>>,
    pub line: Option<u32>,
}

impl View for Metadata {
    type V = MetadataView;

    open spec fn view(&self) -> MetadataView {
        MetadataView {
            name: self.name@,
            target: self.target@,
            level: self.level,
            module: match self.module {
                Some(p) => Some(p@),
                None => None,
            },
            file: match self.file {
                Some(f) => Some(f@),
                None => None,
            },
            line: self.line,
        }
    }
}

/// The string that the target/module split of a metadata works on: the
/// module path when present, the target otherwise.
pub open spec fn base_string(m: MetadataView) -> Seq<char> {
    match m.module {
        Some(p) => p,
        None => m.target,
    }
}

/// The derived `(target, module)` view of a metadata: the part of the base
/// string before the first `::` and the part after it.
pub open spec fn target_module(m: MetadataView) -> (Seq<char>, Option<Seq<char>>) {
    let base = base_string(m);
    match find_dcolon(base) {
        Some(i) => (base.take(i as int), Some(base.skip(i as int + 2))),
        None => (base, None),
    }
}

impl Metadata {
    /// A deep copy whose view equals this one's.
    pub fn duplicate(&self) -> (r: Metadata)
        ensures
            r@ == self@,
    {
        Metadata {
            name: self.name.clone(),
            target: self.target.clone(),
            level: self.level,
            module: match &self.module {
                Some(p) => Some(p.clone()),
                None => None,
            },
            file: match &self.file {
                Some(f) => Some(f.clone()),
                None => None,
            },
            line: self.line,
        }
    }

    /// Splits the module path (or, failing that, the target) around the
    /// first `::` into the target prefix and the module suffix.
    pub fn get_target_module(&self) -> (r: (&str, Option<&str>))
        ensures
            r.0@ == target_module(self@).0,
            match r.1 {
                Some(md) => target_module(self@).1 == Some(md@),
                None => target_module(self@).1 is None,
            },
    {
        let base: &str = match &self.module {
            Some(p) => p.as_str(),
            None => self.target.as_str(),
        };
        let n = base.unicode_len();
        let mut i: usize = 0;
        while i < n && i + 1 < n
            invariant
                i <= n,
                n == base@.len(),
                base@ == base_string(self@),
                forall|j: int| 0 <= j < i ==> !((#[trigger] base@[j]) == ':' && base@[j + 1] == ':'),
            decreases n - i,
        {
            if base.get_char(i) == ':' && base.get_char(i + 1) == ':' {
                proof {
                    lemma_find_dcolon_some(base@, i as int);
                }
                let target = base.substring_char(0, i);
                let module = base.substring_char(i + 2, n);
                proof {
                    assert(base@ == base_string(self@));
                    assert(find_dcolon(base_string(self@)) == Some(i as nat));
                    assert(target@ =~= base@.take(i as int));
                    assert(module@ =~= base@.skip(i as int + 2));
                    assert(target_module(self@).1 == Some(base@.skip(i as int + 2)));
                }
                return (target, Some(module));
            }
            i += 1;
        }
        proof {
            lemma_find_dcolon_none(base@);
            assert(base@.take(n as int) =~= base@);
        }
        (base, None)
    }
}

impl Default for Metadata {
    /// The synthetic root metadata: named `root`, level `Info`, with no
    /// target, module, file or line.
    fn default() -> (r: Metadata)
        ensures
            r.name@ == "root"@,
            r.target@ == ""@,
            r.level == Level::Info,
            r.module is None,
            r.file is None,
            r.line is None,
    {
        Metadata {
            name: String::from_str("root"),
            target: String::from_str(""),
            level: Level::Info,
            module: None,
            file: None,
            line: None,
        }
    }
}

} // verus!
