//! Project scripts: splitting a command line into words and merging the
//! configured `[scripts]` table with the built-in defaults.
use vstd::prelude::*;

use crate::table::{lookup_entry, pair_views, pairs_map, set_entry, unique_names};
use crate::text::{chars_of, is_whitespace, is_ws, string_of};

verus! {

/// Why a script command line could not be split into words.
#[derive(Debug, Clone, Copy, PartialEq, Eq)]
pub enum ScriptError {
    /// A quote was opened and never closed.
    UnterminatedQuote,
    /// The command holds no word at all.
    EmptyCommand,
    /// No script of the requested name is configured or built in.
    UnknownScript,
}

/// The message for a script error: `quoted_name` is the script's name as
/// Rust's debug form quotes it, and `command` the command that was split.
pub open spec fn script_message_of(e: ScriptError, quoted_name: Seq<char>, command: Seq<char>) -> Seq<
    char,
> {
    match e {
        ScriptError::UnterminatedQuote => "unterminated quote in script: "@ + command,
        ScriptError::EmptyCommand => "empty script command"@,
        ScriptError::UnknownScript => "unknown script "@ + quoted_name
            + ". Run `typage run` to list scripts"@,
    }
}

impl ScriptError {
    /// The message that reports this error for the script whose quoted
    /// name is `quoted_name` and whose command is `command`.
    pub fn message(&self, quoted_name: &str, command: &str) -> (r: String)
        ensures
            r@ == script_message_of(*self, quoted_name@, command@),
    {
        match self {
            ScriptError::UnterminatedQuote => {
                let mut m = String::from_str("unterminated quote in script: ");
                m.append(command);
                m
            },
            ScriptError::EmptyCommand => String::from_str("empty script command"),
            ScriptError::UnknownScript => {
                let mut m = String::from_str("unknown script ");
                m.append(quoted_name);
                m.append(". Run `typage run` to list scripts");
                m
            },
        }
    }
}

/// The state of the word splitter: finished words, the current word, the
/// open quote character and whether the previous character was a backslash.
pub type SplitState = (Seq<Seq<char>>, Seq<char>, Option<char>, bool);

/// One character of input fed to the word splitter.
pub open spec fn split_step(st: SplitState, ch: char) -> SplitState {
    let (words, cur, quote, escape) = st;
    if escape {
        (words, cur.push(ch), quote, false)
    } else if ch == '\\' {
        (words, cur, quote, true)
    } else if quote is Some {
        if ch == quote->0 {
            (words, cur, None, false)
        } else {
            (words, cur.push(ch), quote, false)
        }
    } else if ch == '"' || ch == '\'' {
        (words, cur, Some(ch), false)
    } else if is_ws(ch) {
        if cur.len() > 0 {
            (words.push(cur), Seq::<char>::empty(), None, false)
        } else {
            (words, cur, None, false)
        }
    } else {
        (words, cur.push(ch), None, false)
    }
}

/// The splitter state after reading all of `s`.
pub open spec fn split_fold(s: Seq<char>) -> SplitState
    decreases s.len(),
{
    if s.len() == 0 {
        (Seq::<Seq<char>>::empty(), Seq::<char>::empty(), None, false)
    } else {
        split_step(split_fold(s.drop_last()), s.last())
    }
}

/// The words of a command line: white space separates words, single or
/// double quotes group characters (the quotes themselves are dropped), and a
/// backslash takes the next character literally.
pub open spec fn script_words(s: Seq<char>) -> Result<Seq<Seq<char>>, ScriptError> {
    let (words, cur, quote, _escape) = split_fold(s);
    if quote is Some {
        Err(ScriptError::UnterminatedQuote)
    } else {
        let all = if cur.len() > 0 {
            words.push(cur)
        } else {
            words
        };
        if all.len() == 0 {
            Err(ScriptError::EmptyCommand)
        } else {
            Ok(all)
        }
    }
}

/// The character sequences of a sequence of strings.
pub open spec fn string_views(v: Seq<String>) -> Seq<Seq<char>> {
    v.map_values(|x: String| x@)
}

/// Splits a script command line into words, shell style.
pub fn split_script(command: &str) -> (r: Result<Vec<String>, ScriptError>)
    ensures
        match r {
            Ok(words) => script_words(command@) == Ok::<Seq<Seq<char>>, ScriptError>(
                string_views(words@),
            ),
            Err(e) => script_words(command@) == Err::<Seq<Seq<char>>, ScriptError>(e),
        },
{
    let cs = chars_of(command);
    let mut out: Vec<String> = Vec::new();
    let mut cur: Vec<char> = Vec::new();
    let mut quote: Option<char> = None;
    let mut escape = false;
    let mut i: usize = 0;
    while i < cs.len()
        invariant
            i <= cs.len(),
            cs@ == command@,
            split_fold(cs@.take(i as int)) == (string_views(out@), cur@, quote, escape),
        decreases cs.len() - i,
    {
        let ch = cs[i];
        assert(cs@.take(i + 1).drop_last() =~= cs@.take(i as int));
        let ghost before = string_views(out@);
        if escape {
            cur.push(ch);
            escape = false;
        } else if ch == '\\' {
            escape = true;
        } else if quote.is_some() {
            if Some(ch) == quote {
                quote = None;
            } else {
                cur.push(ch);
            }
        } else if ch == '"' || ch == '\'' {
            quote = Some(ch);
        } else if is_whitespace(ch) {
            if cur.len() > 0 {
                let w = string_of(&cur);
                out.push(w);
                cur = Vec::new();
                assert(string_views(out@) =~= before.push(w@));
            }
        } else {
            cur.push(ch);
        }
        i += 1;
    }
    assert(cs@.take(cs.len() as int) =~= cs@);
    if quote.is_some() {
        return Err(ScriptError::UnterminatedQuote);
    }
    if cur.len() > 0 {
        let ghost before = string_views(out@);
        let w = string_of(&cur);
        out.push(w);
        assert(string_views(out@) =~= before.push(w@));
    }
    if out.len() == 0 {
        return Err(ScriptError::EmptyCommand);
    }
    Ok(out)
}


/// The built-in scripts: `build`, `dev`, `preview`, `check`, `clean`.
pub open spec fn default_scripts() -> Seq<(Seq<char>, Seq<char>)> {
    seq![
        ("build"@, "build"@),
        ("dev"@, "serve --live-reload"@),
        ("preview"@, "serve"@),
        ("check"@, "doctor"@),
        ("clean"@, "clean"@),
    ]
}

/// The built-in scripts followed by the configured ones; a configured
/// script replaces the built-in script of the same name.
pub fn merged_scripts(user: &Vec<(String, String)>) -> (r: Vec<(String, String)>)
    ensures
        unique_names(pair_views(r@)),
        pairs_map(pair_views(r@)) == pairs_map(default_scripts()).union_prefer_right(
            pairs_map(pair_views(user@)),
        ),
{
    let mut table: Vec<(String, String)> = Vec::new();
    assert(pair_views(table@) =~= Seq::empty());
    set_entry(&mut table, String::from_str("build"), String::from_str("build"));
    set_entry(&mut table, String::from_str("dev"), String::from_str("serve --live-reload"));
    set_entry(&mut table, String::from_str("preview"), String::from_str("serve"));
    set_entry(&mut table, String::from_str("check"), String::from_str("doctor"));
    set_entry(&mut table, String::from_str("clean"), String::from_str("clean"));
    proof {
        let d = default_scripts();
        let d1 = d.drop_last();
        let d2 = d1.drop_last();
        let d3 = d2.drop_last();
        let d4 = d3.drop_last();
        let d5 = d4.drop_last();
        assert(d5 =~= Seq::empty());
        assert(pairs_map(d5) == Map::<Seq<char>, Seq<char>>::empty());
        assert(pairs_map(d4) == pairs_map(d5).insert(d4.last().0, d4.last().1));
        assert(pairs_map(d3) == pairs_map(d4).insert(d3.last().0, d3.last().1));
        assert(pairs_map(d2) == pairs_map(d3).insert(d2.last().0, d2.last().1));
        assert(pairs_map(d1) == pairs_map(d2).insert(d1.last().0, d1.last().1));
        assert(pairs_map(d) == pairs_map(d1).insert(d.last().0, d.last().1));
        assert(pairs_map(pair_views(table@)) =~= pairs_map(d));
    }
    let ghost base = pairs_map(default_scripts());
    let mut i: usize = 0;
    while i < user.len()
        invariant
            i <= user.len(),
            unique_names(pair_views(table@)),
            pairs_map(pair_views(table@)) == base.union_prefer_right(
                pairs_map(pair_views(user@).take(i as int)),
            ),
        decreases user.len() - i,
    {
        let k = user[i].0.clone();
        let v = user[i].1.clone();
        set_entry(&mut table, k, v);
        proof {
            let uv = pair_views(user@);
            assert(uv.take(i + 1).drop_last() =~= uv.take(i as int));
            assert(uv.take(i + 1).last() == uv[i as int]);
            assert(pairs_map(pair_views(table@)) =~= base.union_prefer_right(
                pairs_map(uv.take(i + 1)),
            ));
        }
        i += 1;
    }
    assert(pair_views(user@).take(user.len() as int) =~= pair_views(user@));
    table
}


/// The words that run `name` with the `typage` executable: the script's
/// words, then `--root <root>` unless the script passes `--root` itself,
/// then the extra arguments.
pub open spec fn script_invocation(
    user: Seq<(Seq<char>, Seq<char>)>,
    name: Seq<char>,
    root: Seq<char>,
    extra: Seq<Seq<char>>,
) -> Result<Seq<Seq<char>>, ScriptError> {
    let m = pairs_map(default_scripts()).union_prefer_right(pairs_map(user));
    if !m.contains_key(name) {
        Err(ScriptError::UnknownScript)
    } else {
        match script_words(m[name]) {
            Err(e) => Err(e),
            Ok(w) => {
                let with_root = if w.contains("--root"@) {
                    w
                } else {
                    w + seq!["--root"@, root]
                };
                Ok(with_root + extra)
            },
        }
    }
}

/// Whether one of `words` is the text `t`.
fn contains_word(words: &Vec<String>, t: &str) -> (r: bool)
    ensures
        r == string_views(words@).contains(t@),
{
    let tv = chars_of(t);
    let mut i: usize = 0;
    while i < words.len()
        invariant
            i <= words.len(),
            tv@ == t@,
            forall|k: int| 0 <= k < i ==> words@[k]@ != t@,
        decreases words.len() - i,
    {
        let w = chars_of(words[i].as_str());
        if crate::text::vec_eq(&w, &tv) {
            assert(string_views(words@)[i as int] == t@);
            return true;
        }
        i += 1;
    }
    proof {
        if string_views(words@).contains(t@) {
            let k = choose|k: int| 0 <= k < words@.len() && string_views(words@)[k] == t@;
            assert(words@[k]@ != t@);
        }
    }
    false
}

/// The arguments for running the script `name` (`typage run <name>`).
pub fn script_args(user: &Vec<(String, String)>, name: &str, root: &str, extra: &Vec<String>) -> (r:
    Result<Vec<String>, ScriptError>)
    ensures
        match r {
            Ok(args) => script_invocation(pair_views(user@), name@, root@, string_views(extra@))
                == Ok::<Seq<Seq<char>>, ScriptError>(string_views(args@)),
            Err(e) => script_invocation(pair_views(user@), name@, root@, string_views(extra@))
                == Err::<Seq<Seq<char>>, ScriptError>(e),
        },
{
    let scripts = merged_scripts(user);
    let command = match lookup_entry(&scripts, name) {
        Some(c) => c,
        None => return Err(ScriptError::UnknownScript),
    };
    let mut args = match split_script(command.as_str()) {
        Ok(w) => w,
        Err(e) => return Err(e),
    };
    let ghost w = string_views(args@);
    if !contains_word(&args, "--root") {
        args.push(String::from_str("--root"));
        args.push(String::from_str(root));
        assert(string_views(args@) =~= w + seq!["--root"@, root@]);
    }
    let ghost with_root = string_views(args@);
    let mut i: usize = 0;
    while i < extra.len()
        invariant
            i <= extra.len(),
            string_views(args@) == with_root + string_views(extra@).take(i as int),
        decreases extra.len() - i,
    {
        let ghost before = string_views(args@);
        args.push(extra[i].clone());
        i += 1;
        assert(string_views(args@) =~= before.push(extra@[i - 1]@));
        assert(string_views(extra@).take(i as int) =~= string_views(extra@).take(i - 1).push(
            extra@[i - 1]@,
        ));
        assert(string_views(args@) =~= with_root + string_views(extra@).take(i as int));
    }
    assert(string_views(extra@).take(extra.len() as int) =~= string_views(extra@));
    Ok(args)
}

/// How a hook runs: its command line, its program, whether that program
/// is `typage` itself (run as the current executable), and its arguments.
#[derive(Debug, Clone, PartialEq, Eq)]
pub struct HookCall {
    pub command: String,
    pub program: String,
    pub runs_self: bool,
    pub args: Vec<String>,
}

/// The words of the hook `name`, when it runs: hooks are off with
/// `no_hooks`, inside a running hook, and for a name without a command.
pub open spec fn hook_words(
    hooks: Seq<(Seq<char>, Seq<char>)>,
    name: Seq<char>,
    no_hooks: bool,
    in_hook: bool,
) -> Option<Result<Seq<Seq<char>>, ScriptError>> {
    if no_hooks || in_hook || !pairs_map(hooks).contains_key(name) {
        None
    } else {
        Some(script_words(pairs_map(hooks)[name]))
    }
}

/// Decides whether and how the hook `name` runs.
pub fn hook_invocation(hooks: &Vec<(String, String)>, name: &str, no_hooks: bool, in_hook: bool) -> (r:
    Result<Option<HookCall>, ScriptError>)
    ensures
        hook_words(pair_views(hooks@), name@, no_hooks, in_hook) is None ==> r == Ok::<
            Option<HookCall>,
            ScriptError,
        >(None),
        hook_words(pair_views(hooks@), name@, no_hooks, in_hook) matches Some(Err(e)) ==> r == Err::<
            Option<HookCall>,
            ScriptError,
        >(e),
        hook_words(pair_views(hooks@), name@, no_hooks, in_hook) matches Some(Ok(w)) ==> (
        r matches Ok(Some(call)) && call.command@ == pairs_map(pair_views(hooks@))[name@]
            && call.program@ == w[0] && call.runs_self == (w[0] == "typage"@)
            && string_views(call.args@) == w.drop_first()),
{
    if no_hooks || in_hook {
        return Ok(None);
    }
    let command = match lookup_entry(hooks, name) {
        Some(c) => c,
        None => return Ok(None),
    };
    let words = match split_script(command.as_str()) {
        Ok(w) => w,
        Err(e) => return Err(e),
    };
    let ghost w = string_views(words@);
    assert(w.len() > 0);
    let program = words[0].clone();
    let pc = chars_of(program.as_str());
    let runs_self = crate::text::eq_str(&pc, "typage");
    let mut args: Vec<String> = Vec::new();
    let mut i: usize = 1;
    while i < words.len()
        invariant
            1 <= i <= words.len(),
            w == string_views(words@),
            string_views(args@) == w.subrange(1, i as int),
        decreases words.len() - i,
    {
        let ghost before = string_views(args@);
        let a = words[i].clone();
        assert(a@ == w[i as int]);
        args.push(a);
        assert(string_views(args@) =~= before.push(a@));
        assert(string_views(args@) =~= w.subrange(1, i + 1));
        i += 1;
    }
    assert(w.subrange(1, w.len() as int) =~= w.drop_first());
    Ok(Some(HookCall { command, program, runs_self, args }))
}

} // verus!
