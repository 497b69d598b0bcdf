//! Repository configuration: a base branch and the user's name and e-mail,
//! kept as `key=value` lines.
use crate::error::KvcError;
use crate::text::{chars_of, lines_of, split_lines};
use vstd::prelude::*;

verus! {

pub open spec fn is_first_eq(s: Seq<char>, i: int) -> bool {
    0 <= i < s.len() && s[i] == '=' && forall|j: int| 0 <= j < i ==> s[j] != '='
}

/// `s` up to its first `=`, or all of it when it has none.
pub open spec fn before_eq(s: Seq<char>) -> Seq<char> {
    if exists|i: int| is_first_eq(s, i) {
        s.subrange(0, choose|i: int| is_first_eq(s, i))
    } else {
        s
    }
}

/// A configuration line read as a setting: the name before the first `=`
/// and the value after it, up to the next `=`. `None` when the line has no
/// `=`.
pub open spec fn setting_of(line: Seq<char>) -> Option<(Seq<char>, Seq<char>)> {
    if exists|i: int| is_first_eq(line, i) {
        let i = choose|i: int| is_first_eq(line, i);
        Some((line.subrange(0, i), before_eq(line.subrange(i + 1, line.len() as int))))
    } else {
        None
    }
}

/// The settings as (base branch, user e-mail, user name).
pub type ConfigFields = (Seq<char>, Seq<char>, Seq<char>);

/// The fields after one setting: a known name sets its field, any other
/// name is ignored.
pub open spec fn apply_setting(c: ConfigFields, name: Seq<char>, value: Seq<char>) -> ConfigFields {
    if name == "base_branch"@ {
        (value, c.1, c.2)
    } else if name == "user.email"@ {
        (c.0, value, c.2)
    } else if name == "user.name"@ {
        (c.0, c.1, value)
    } else {
        c
    }
}

/// The fields after the settings in order, starting from empty ones.
pub open spec fn apply_settings(settings: Seq<(Seq<char>, Seq<char>)>) -> ConfigFields
    decreases settings.len(),
{
    if settings.len() == 0 {
        (seq![], seq![], seq![])
    } else {
        let (name, value) = settings.last();
        apply_setting(apply_settings(settings.drop_last()), name, value)
    }
}

/// What a configuration file's text means: an empty text is refused; every
/// line must be a setting.
pub open spec fn parse_config(s: Seq<char>) -> Result<ConfigFields, KvcError> {
    if s.len() == 0 {
        Err(KvcError::EmptyConfig)
    } else {
        let ls = split_lines(s);
        if forall|i: int| 0 <= i < ls.len() ==> (#[trigger] setting_of(ls[i])) is Some {
            Ok(apply_settings(ls.map_values(|l: Seq<char>| setting_of(l)->Some_0)))
        } else {
            Err(KvcError::MalformedConfig)
        }
    }
}

/// The text of the configuration file for the given fields.
pub open spec fn config_text(c: ConfigFields) -> Seq<char> {
    "base_branch="@ + c.0 + "\nuser.email="@ + c.1 + "\nuser.name="@ + c.2
}

/// The user that snapshots are recorded for.
pub struct User {
    pub email: String,
    pub name: String,
}

/// The configuration of a repository.
pub struct Config {
    pub user: User,
    pub base_branch: String,
}

impl View for Config {
    type V = ConfigFields;

    open spec fn view(&self) -> ConfigFields {
        (self.base_branch@, self.user.email@, self.user.name@)
    }
}

impl Config {
    /// A copy with the same fields.
    pub fn clone(&self) -> (r: Config)
        ensures
            r@ == self@,
    {
        Config {
            base_branch: self.base_branch.clone(),
            user: User { name: self.user.name.clone(), email: self.user.email.clone() },
        }
    }

    /// A configuration with every field empty.
    pub fn new() -> (r: Config)
        ensures
            r@ == (Seq::<char>::empty(), Seq::<char>::empty(), Seq::<char>::empty()),
    {
        Config {
            base_branch: String::new(),
            user: User { name: String::new(), email: String::new() },
        }
    }

    /// Reads a configuration from the text of its file. Fails with
    /// `EmptyConfig` on an empty text and with `MalformedConfig` when a line
    /// has no `=`.
    pub fn read_from_file(config_content: &str) -> (r: Result<Config, KvcError>)
        ensures
            match parse_config(config_content@) {
                Ok(c) => r matches Ok(config) && config@ == c,
                Err(e) => r matches Err(e2) && e2 == e,
            },
    {
        if config_content.unicode_len() == 0 {
            return Err(KvcError::EmptyConfig);
        }
        let lines = lines_of(config_content);
        let ghost ls = split_lines(config_content@);
        let mut config = Config::new();
        let mut i: usize = 0;
        while i < lines.len()
            invariant
                lines@.map_values(|l: String| l@) == ls,
                ls == split_lines(config_content@),
                config_content@.len() > 0,
                i <= ls.len(),
                forall|j: int| 0 <= j < i ==> (#[trigger] setting_of(ls[j])) is Some,
                config@ == apply_settings(
                    ls.subrange(0, i as int).map_values(|l: Seq<char>| setting_of(l)->Some_0),
                ),
            decreases ls.len() - i,
        {
            assert(lines@[i as int]@ == ls[i as int]);
            let ghost before = config@;
            match Self::get_key_value(lines[i].as_str()) {
                Some((key, value)) => {
                    config.set(&key, value);
                    proof {
                        let f = |l: Seq<char>| setting_of(l)->Some_0;
                        assert(ls.subrange(0, i + 1).map_values(f).drop_last() =~= ls.subrange(
                            0,
                            i as int,
                        ).map_values(f));
                    }
                },
                None => {
                    assert(!(setting_of(ls[i as int]) is Some));
                    return Err(KvcError::MalformedConfig);
                },
            }
            i = i + 1;
        }
        assert(ls.subrange(0, ls.len() as int) =~= ls);
        Ok(config)
    }

    /// Sets the field that `name` names; another name changes nothing.
    fn set(&mut self, name: &String, value: String)
        ensures
            final(self)@ == apply_setting(old(self)@, name@, value@),
    {
        if *name == "base_branch".to_owned() {
            self.base_branch = value;
        } else if *name == "user.email".to_owned() {
            self.user.email = value;
        } else if *name == "user.name".to_owned() {
            self.user.name = value;
        }
    }

    /// Splits a configuration line into name and value.
    fn get_key_value(line: &str) -> (r: Option<(String, String)>)
        ensures
            match setting_of(line@) {
                Some(kv) => r matches Some(p) && p.0@ == kv.0 && p.1@ == kv.1,
                None => r is None,
            },
    {
        let cs = chars_of(line);
        let n = cs.len();
        let i = match Self::first_eq(&cs, 0) {
            Some(i) => i,
            None => {
                proof {
                    if exists|c: int| is_first_eq(line@, c) {
                        let c = choose|c: int| is_first_eq(line@, c);
                        assert(cs@[c] == '=');
                    }
                }
                return None;
            },
        };
        let end = match Self::first_eq(&cs, i + 1) {
            Some(j) => j,
            None => n,
        };
        proof {
            assert(is_first_eq(line@, i as int));
            let c = choose|c: int| is_first_eq(line@, c);
            if c < i {
                assert(line@[c] != '=');
            }
            if c > i {
                assert(line@[i as int] != '=');
            }
            let rest = line@.subrange(i + 1, n as int);
            if exists|k: int| is_first_eq(rest, k) {
                let k = choose|k: int| is_first_eq(rest, k);
                assert(line@[i + 1 + k] == '=');
                if (end as int) < i + 1 + k {
                    assert(rest[end - i - 1] == '=');
                }
                if (end as int) > i + 1 + k {
                    assert(cs@[i + 1 + k] != '=');
                }
                assert(rest.subrange(0, k) =~= line@.subrange(i + 1, end as int));
            } else {
                if end < n {
                    assert(is_first_eq(rest, end - i - 1));
                }
                assert(rest =~= line@.subrange(i + 1, end as int));
            }
        }
        let key = line.substring_char(0, i).to_owned();
        let value = line.substring_char(i + 1, end).to_owned();
        Some((key, value))
    }

    /// The position of the first `=` at or after `from`.
    fn first_eq(cs: &Vec<char>, from: usize) -> (r: Option<usize>)
        requires
            from <= cs@.len(),
        ensures
            match r {
                Some(i) => from <= i < cs@.len() && cs@[i as int] == '=' && forall|j: int|
                    from <= j < i ==> cs@[j] != '=',
                None => forall|j: int| from <= j < cs@.len() ==> cs@[j] != '=',
            },
    {
        let mut i = from;
        while i < cs.len()
            invariant
                from <= i <= cs@.len(),
                forall|j: int| from <= j < i ==> cs@[j] != '=',
            decreases cs@.len() - i,
        {
            if cs[i] == '=' {
                return Some(i);
            }
            i = i + 1;
        }
        None
    }

    /// The text of the configuration file: `base_branch`, `user.email` and
    /// `user.name`, one `key=value` line each, in that order.
    pub fn to_file_text(&self) -> (r: String)
        ensures
            r@ == config_text(self@),
    {
        let mut out = "base_branch=".to_owned();
        out.append(self.base_branch.as_str());
        out.append("\nuser.email=");
        out.append(self.user.email.as_str());
        out.append("\nuser.name=");
        out.append(self.user.name.as_str());
        out
    }
}

} // verus!
