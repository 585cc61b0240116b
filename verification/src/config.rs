//! What a run is asked to do, read from its arguments.

use crate::tree::{extension_of, selected, File};
use vstd::prelude::*;

verus! {

/// What a run is asked to do.
#[derive(Debug, PartialEq, Eq)]
pub struct Config {
    /// The directory to walk.
    pub targetpath: String,
    /// The extensions of the files to count, without a leading dot.
    pub extensions: Vec<String>,
    /// Whether progress is left unreported.
    pub quiet: bool,
}

/// A configuration as the contracts see it.
pub struct ConfigView {
    pub targetpath: Seq<char>,
    pub extensions: Seq<Seq<char>>,
    pub quiet: bool,
}

impl View for Config {
    type V = ConfigView;

    open spec fn view(&self) -> ConfigView {
        ConfigView {
            targetpath: self.targetpath@,
            extensions: texts(self.extensions@),
            quiet: self.quiet,
        }
    }
}

/// What the tokens that follow are taken for.
#[derive(Debug, Clone, Copy, PartialEq, Eq, Structural)]
pub enum Keyword {
    /// No flag was read yet.
    Unset,
    /// `-e` was the last flag: extensions follow.
    Extension,
    /// `-q` was the last flag: nothing may follow but a flag.
    Quiet,
}

/// The texts of a list of strings.
pub open spec fn texts(strings: Seq<String>) -> Seq<Seq<char>> {
    strings.map_values(|s: String| s@)
}

/// Whether `token` is one of the two flags.
pub open spec fn is_flag(token: Seq<char>) -> bool {
    token == "-e"@ || token == "-q"@
}

/// The test that keeps what is no flag.
pub open spec fn no_flag() -> spec_fn(Seq<char>) -> bool {
    |token: Seq<char>| !is_flag(token)
}

/// The keyword in force after `tokens`: the one of the last flag among them.
pub open spec fn keyword_after(tokens: Seq<Seq<char>>) -> Keyword
    decreases tokens.len(),
{
    if tokens.len() == 0 {
        Keyword::Unset
    } else if tokens.last() == "-e"@ {
        Keyword::Extension
    } else if tokens.last() == "-q"@ {
        Keyword::Quiet
    } else {
        keyword_after(tokens.drop_last())
    }
}

/// The tokens after the target path obey the grammar when each one that is
/// no flag stands where extensions are collected.
pub open spec fn well_formed(tokens: Seq<Seq<char>>) -> bool {
    forall|n: int|
        0 <= n < tokens.len() && !is_flag(tokens[n]) ==> #[trigger] keyword_after(tokens.take(n))
            == Keyword::Extension
}

/// What the arguments of a run ask for: the target path after the program's
/// name, the extensions in the order in which they are named, and whether
/// `-q` is among the flags; or why the arguments are refused.
pub open spec fn parse(args: Seq<Seq<char>>) -> Result<ConfigView, Seq<char>> {
    if args.len() < 2 {
        Err("No arguments"@)
    } else if !well_formed(args.skip(2)) {
        Err("Argument Parsing Error"@)
    } else {
        Ok(
            ConfigView {
                targetpath: args[1],
                extensions: args.skip(2).filter(no_flag()),
                quiet: args.skip(2).contains("-q"@),
            },
        )
    }
}

impl Config {
    /// The set of extensions asked for.
    pub open spec fn accepted(&self) -> Set<Seq<char>> {
        self@.extensions.to_set()
    }

    /// Whether files with this extension are counted.
    pub fn accepts(&self, extension: &String) -> (b: bool)
        ensures
            b == self.accepted().contains(extension@),
    {
        let mut i: usize = 0;
        while i < self.extensions.len()
            invariant
                i <= self.extensions.len(),
                forall|k: int| 0 <= k < i ==> self.extensions[k]@ != extension@,
            decreases self.extensions.len() - i,
        {
            if self.extensions[i] == *extension {
                assert(texts(self.extensions@)[i as int] == extension@);
                return true;
            }
            i += 1;
        }
        assert forall|k: int| 0 <= k < self.extensions.len() implies #[trigger] texts(
            self.extensions@,
        )[k] != extension@ by {}
        false
    }

    /// The extension of `file`, if it is one of those asked for: the file is
    /// then read and counted under it. A file without an extension, or with
    /// another one, is passed over.
    pub fn selects(&self, file: &File) -> (r: Option<String>)
        ensures
            match r {
                Some(e) => extension_of(file@.name) == Some(e@) && self.accepted().contains(e@),
                None => !selected(file@.name, self.accepted()),
            },
    {
        match file.extension() {
            None => None,
            Some(extension) => if self.accepts(&extension) {
                Some(extension)
            } else {
                None
            },
        }
    }

    /// Reads the arguments of a run: the program's name, the target path,
    /// then `-e` with the extensions after it and `-q`, in any order and any
    /// number of times.
    pub fn new(args: &Vec<String>) -> (r: Result<Config, String>)
        ensures
            match r {
                Ok(config) => parse(texts(args@)) == Ok::<ConfigView, Seq<char>>(config@),
                Err(message) => parse(texts(args@)) == Err::<ConfigView, Seq<char>>(message@),
            },
    {
        if args.len() < 2 {
            return Err("No arguments".to_owned());
        }
        let targetpath = args[1].clone();
        let mut extensions: Vec<String> = Vec::new();
        let extension_flag = "-e".to_owned();
        let quiet_flag = "-q".to_owned();
        let ghost tokens = texts(args@).skip(2);

        let mut n: usize = 2;
        let mut cur_option = Keyword::Unset;
        let mut quiet = false;
        proof {
            reveal_strlit("-e");
            reveal_strlit("-q");
            assert("-e"@[1] != "-q"@[1]);
            assert(tokens.take(0).filter(no_flag()) == Seq::<Seq<char>>::empty()) by {
                reveal(Seq::filter);
            }
        }

        while n < args.len()
            invariant
                2 <= n <= args.len(),
                tokens == texts(args@).skip(2),
                extension_flag@ == "-e"@,
                quiet_flag@ == "-q"@,
                "-e"@ != "-q"@,
                cur_option == keyword_after(tokens.take(n - 2)),
                well_formed(tokens.take(n - 2)),
                texts(extensions@) == tokens.take(n - 2).filter(no_flag()),
                quiet == tokens.take(n - 2).contains("-q"@),
            decreases args.len() - n,
        {
            let ghost seen = tokens.take(n - 2);
            let ghost token = tokens[n - 2];
            proof {
                assert(tokens.take(n - 1) == seen.push(token));
                assert(tokens.take(n - 1).drop_last() == seen);
                Seq::lemma_filter_push(seen, token, no_flag());
                assert forall|k: int| 0 <= k < n - 2 implies #[trigger] tokens.take(n - 1).take(k)
                    == seen.take(k) by {}
                assert(tokens.take(n - 1).take(n - 2) == seen);
                assert(seen.push(token).contains("-q"@) <==> seen.contains("-q"@) || token
                    == "-q"@) by {
                    if seen.contains("-q"@) {
                        let k = seen.index_of("-q"@);
                        assert(seen.push(token)[k] == "-q"@);
                    }
                    if token == "-q"@ {
                        assert(seen.push(token)[n - 2] == "-q"@);
                    }
                }
            }
            if args[n] == extension_flag {
                cur_option = Keyword::Extension;
            } else if args[n] == quiet_flag {
                cur_option = Keyword::Quiet;
                quiet = true;
            } else {
                match cur_option {
                    Keyword::Extension => {
                        extensions.push(args[n].clone());
                        assert(texts(extensions@) == seen.filter(no_flag()).push(token));
                    },
                    _ => {
                        assert(!is_flag(tokens[n - 2]) && keyword_after(tokens.take(n - 2))
                            != Keyword::Extension);
                        return Err("Argument Parsing Error".to_owned());
                    },
                }
            }
            n += 1;
        }
        assert(tokens.take(n - 2) == tokens);
        Ok(Config { targetpath: targetpath, extensions: extensions, quiet: quiet })
    }
}

} // verus!
