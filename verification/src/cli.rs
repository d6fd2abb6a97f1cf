//! The client's command line: `send FILE...` (alias `s`) and
//! `get [-s|--save] FILE...` (alias `d`), with the save switch also taken
//! from the environment.

use vstd::prelude::*;

use crate::request::{ascii_lower, text_eq};
use crate::text::chars_of;

verus! {

/// What the client is asked to do.
pub enum SubCommand {
    /// Send one or more files.
    Send { files: Vec<String> },
    /// Get one or more files, and save them to disk when `save` is set.
    Get { files: Vec<String>, save: bool },
}

/// The parsed command line.
pub struct Args {
    pub cmd: SubCommand,
}

/// Why a command line was refused.
#[derive(Debug, Clone, Copy, PartialEq, Eq, Structural)]
pub enum ArgsError {
    /// No subcommand was given.
    MissingSubcommand,
    /// The subcommand is none of `send`, `s`, `get`, `d`.
    UnknownSubcommand,
    /// A word starting with `-` is not an option of the subcommand.
    UnknownOption,
    /// No file was named.
    MissingFiles,
    /// The save switch was given more than once.
    RepeatedOption,
}

/// A command taken by its texts.
pub enum SpecCommand {
    Send(Seq<Seq<char>>),
    Get(Seq<Seq<char>>, bool),
}

/// A list of texts taken by their characters.
pub open spec fn texts(v: Seq<String>) -> Seq<Seq<char>> {
    v.map_values(|s: String| s@)
}

impl View for Args {
    type V = SpecCommand;

    open spec fn view(&self) -> SpecCommand {
        match self.cmd {
            SubCommand::Send { files } => SpecCommand::Send(texts(files@)),
            SubCommand::Get { files, save } => SpecCommand::Get(texts(files@), save),
        }
    }
}

/// `w` is a cluster of short save switches: `-` followed by one or more `s`.
pub open spec fn is_save_cluster(w: Seq<char>) -> bool {
    &&& w.len() >= 2
    &&& w[0] == '-'
    &&& forall|k: int| 1 <= k < w.len() ==> w[k] == 's'
}

/// Reads the words of a subcommand from position `i` on, counting in
/// `saves` how often the save switch is given: `--` makes every later word
/// a file; where the subcommand has a save switch (`get`), `--save` gives it
/// once and `-s`, `-ss`, ... once for each `s`; any other word of two or
/// more characters starting with `-` is refused; every other word is a file.
pub open spec fn scan_words(
    words: Seq<Seq<char>>,
    i: int,
    has_save: bool,
    files: Seq<Seq<char>>,
    saves: nat,
    raw: bool,
) -> Result<(Seq<Seq<char>>, nat), ArgsError>
    decreases words.len() - i,
{
    if i < 0 || i >= words.len() {
        Ok((files, saves))
    } else {
        let w = words[i];
        if !raw && w == "--"@ {
            scan_words(words, i + 1, has_save, files, saves, true)
        } else if !raw && has_save && w == "--save"@ {
            scan_words(words, i + 1, has_save, files, saves + 1, raw)
        } else if !raw && has_save && is_save_cluster(w) {
            scan_words(words, i + 1, has_save, files, saves + (w.len() - 1) as nat, raw)
        } else if !raw && w.len() > 1 && w[0] == '-' {
            Err(ArgsError::UnknownOption)
        } else {
            scan_words(words, i + 1, has_save, files.push(w), saves, raw)
        }
    }
}

/// The command that `argv` (the program name first) asks for; `save_env`
/// is the save switch that the environment sets. A word that is not an
/// option is refused first, then a line without files, then a save switch
/// given more than once.
pub open spec fn parse_args_spec(argv: Seq<Seq<char>>, save_env: bool) -> Result<SpecCommand, ArgsError> {
    if argv.len() < 2 {
        Err(ArgsError::MissingSubcommand)
    } else if argv[1] == "send"@ || argv[1] == "s"@ {
        match scan_words(argv, 2, false, seq![], 0, false) {
            Err(e) => Err(e),
            Ok((files, _)) => if files.len() == 0 {
                Err(ArgsError::MissingFiles)
            } else {
                Ok(SpecCommand::Send(files))
            },
        }
    } else if argv[1] == "get"@ || argv[1] == "d"@ {
        match scan_words(argv, 2, true, seq![], 0, false) {
            Err(e) => Err(e),
            Ok((files, saves)) => if files.len() == 0 {
                Err(ArgsError::MissingFiles)
            } else if saves > 1 {
                Err(ArgsError::RepeatedOption)
            } else {
                Ok(SpecCommand::Get(files, saves == 1 || save_env))
            },
        }
    } else {
        Err(ArgsError::UnknownSubcommand)
    }
}

/// Parsed arguments taken by their texts, or the error.
pub open spec fn args_result(r: Result<Args, ArgsError>) -> Result<SpecCommand, ArgsError> {
    match r {
        Ok(a) => Ok(a@),
        Err(e) => Err(e),
    }
}

/// `n` counted up to two.
pub open spec fn up_to_two(n: nat) -> nat {
    if n >= 2 {
        2
    } else {
        n
    }
}

/// The files that the words of a subcommand give, and how often the save
/// switch is given, counted up to two.
fn scan(argv: &Vec<String>, has_save: bool) -> (r: Result<(Vec<String>, usize), ArgsError>)
    ensures
        match r {
            Ok((files, saves)) => exists|n: nat|
                scan_words(texts(argv@), 2, has_save, seq![], 0, false) == Ok::<_, ArgsError>(
                    (texts(files@), n),
                ) && saves == up_to_two(n),
            Err(e) => scan_words(texts(argv@), 2, has_save, seq![], 0, false) == Err::<
                (Seq<Seq<char>>, nat),
                _,
            >(e),
        },
{
    let ghost words = texts(argv@);
    let mut files: Vec<String> = Vec::new();
    let mut saves: usize = 0;
    let ghost mut count: nat = 0;
    let mut raw = false;
    let mut i: usize = 2;
    assert(texts(files@) =~= Seq::<Seq<char>>::empty());
    while i < argv.len()
        invariant
            words == texts(argv@),
            2 <= i,
            saves == up_to_two(count),
            scan_words(words, 2, has_save, seq![], 0, false) == scan_words(
                words,
                i as int,
                has_save,
                texts(files@),
                count,
                raw,
            ),
        decreases argv.len() - i,
    {
        let w = argv[i].as_str();
        assert(words[i as int] == w@);
        if !raw && text_eq(w, "--") {
            raw = true;
        } else if !raw && has_save && text_eq(w, "--save") {
            proof {
                count = count + 1;
            }
            saves = if saves < 2 { saves + 1 } else { 2 };
        } else if !raw && has_save && save_cluster(w) {
            let n = save_cluster_count(w);
            proof {
                count = count + (w@.len() - 1) as nat;
            }
            saves = if n >= 2 || saves + n >= 2 { 2 } else { saves + n };
        } else if !raw && starts_as_option(w) {
            return Err(ArgsError::UnknownOption);
        } else {
            let ghost before = files@;
            files.push(argv[i].clone());
            assert(texts(files@) =~= texts(before).push(w@));
        }
        i = i + 1;
    }
    Ok((files, saves))
}

/// Whether `w` is a cluster of short save switches.
fn save_cluster(w: &str) -> (r: bool)
    ensures
        r == is_save_cluster(w@),
{
    let v = chars_of(w);
    if v.len() < 2 || v[0] != '-' {
        return false;
    }
    let mut k: usize = 1;
    while k < v.len()
        invariant
            v@ == w@,
            1 <= k <= v.len(),
            forall|j: int| 1 <= j < k ==> v@[j] == 's',
        decreases v.len() - k,
    {
        if v[k] != 's' {
            return false;
        }
        k = k + 1;
    }
    true
}

/// How many switches a cluster holds, counted up to two.
fn save_cluster_count(w: &str) -> (r: usize)
    requires
        is_save_cluster(w@),
    ensures
        r == up_to_two((w@.len() - 1) as nat),
{
    let v = chars_of(w);
    if v.len() - 1 >= 2 {
        2
    } else {
        v.len() - 1
    }
}

/// Whether `w` has two or more characters and starts with `-`.
fn starts_as_option(w: &str) -> (r: bool)
    ensures
        r == (w@.len() > 1 && w@[0] == '-'),
{
    let v = chars_of(w);
    v.len() > 1 && v[0] == '-'
}

/// Reads the command line `argv` (the program name first); `save_env` is
/// the save switch that the environment sets.
pub fn parse_args(argv: &Vec<String>, save_env: bool) -> (r: Result<Args, ArgsError>)
    ensures
        args_result(r) == parse_args_spec(texts(argv@), save_env),
{
    if argv.len() < 2 {
        return Err(ArgsError::MissingSubcommand);
    }
    let command = argv[1].as_str();
    assert(texts(argv@)[1] == command@);
    if text_eq(command, "send") || text_eq(command, "s") {
        match scan(argv, false) {
            Err(e) => Err(e),
            Ok((files, _)) => if files.len() == 0 {
                Err(ArgsError::MissingFiles)
            } else {
                Ok(Args { cmd: SubCommand::Send { files } })
            },
        }
    } else if text_eq(command, "get") || text_eq(command, "d") {
        match scan(argv, true) {
            Err(e) => Err(e),
            Ok((files, saves)) => if files.len() == 0 {
                Err(ArgsError::MissingFiles)
            } else if saves > 1 {
                Err(ArgsError::RepeatedOption)
            } else {
                Ok(Args { cmd: SubCommand::Get { files, save: saves == 1 || save_env } })
            },
        }
    } else {
        Err(ArgsError::UnknownSubcommand)
    }
}

/// The words that turn a switch off when an environment variable holds
/// them, in any letter case: `n`, `no`, `f`, `false`, `off`, `0`.
pub open spec fn is_false_word(s: Seq<char>) -> bool {
    let l = s.map_values(|c: char| ascii_lower(c));
    l == "n"@ || l == "no"@ || l == "f"@ || l == "false"@ || l == "off"@ || l == "0"@
}

/// Whether `v` is `lit` once its ASCII capitals are made small.
fn lower_equals(v: &Vec<char>, lit: &str) -> (r: bool)
    ensures
        r == (v@.map_values(|c: char| ascii_lower(c)) == lit@),
{
    let l = chars_of(lit);
    if v.len() != l.len() {
        assert(v@.map_values(|c: char| ascii_lower(c)).len() != lit@.len());
        return false;
    }
    let mut i: usize = 0;
    while i < v.len()
        invariant
            l@ == lit@,
            v.len() == l.len(),
            i <= v.len(),
            forall|j: int| 0 <= j < i ==> ascii_lower(v@[j]) == l@[j],
        decreases v.len() - i,
    {
        let c = v[i];
        let u = c as u32;
        let lower = if 65 <= u && u <= 90 {
            ((u + 32) as u8) as char
        } else {
            c
        };
        if lower != l[i] {
            assert(v@.map_values(|c: char| ascii_lower(c))[i as int] != lit@[i as int]);
            return false;
        }
        i = i + 1;
    }
    assert(v@.map_values(|c: char| ascii_lower(c)) =~= lit@);
    true
}

/// A switch set from an environment variable: off when the variable is
/// absent or holds a false word, on otherwise.
pub open spec fn env_switch_spec(value: Option<Seq<char>>) -> bool {
    match value {
        None => false,
        Some(v) => !is_false_word(v),
    }
}

/// The save switch from the value of its environment variable, if set.
pub fn env_switch(value: Option<&str>) -> (r: bool)
    ensures
        r == env_switch_spec(
            match value {
                Some(v) => Some(v@),
                None => None,
            },
        ),
{
    match value {
        None => false,
        Some(v) => {
            let c = chars_of(v);
            !(lower_equals(&c, "n") || lower_equals(&c, "no") || lower_equals(&c, "f")
                || lower_equals(&c, "false") || lower_equals(&c, "off") || lower_equals(&c, "0"))
        },
    }
}


/// A word that is read as a file name wherever it stands: it is not `--`
/// and does not start with `-` unless it is `-` alone.
pub open spec fn plain_word(w: Seq<char>) -> bool {
    !(w.len() > 1 && w[0] == '-')
}

/// Plain words are read as files, in order, and nothing else is set.
proof fn lemma_scan_plain_words(
    words: Seq<Seq<char>>,
    i: int,
    has_save: bool,
    files: Seq<Seq<char>>,
    saves: nat,
)
    requires
        0 <= i <= words.len(),
        forall|k: int| i <= k < words.len() ==> plain_word(#[trigger] words[k]),
    ensures
        scan_words(words, i, has_save, files, saves, false) == Ok::<_, ArgsError>(
            (files + words.subrange(i, words.len() as int), saves),
        ),
    decreases words.len() - i,
{
    reveal_strlit("--");
    reveal_strlit("--save");
    if i < words.len() {
        let w = words[i];
        assert(plain_word(w));
        assert(w != "--"@) by {
            if w == "--"@ {
                assert(w.len() > 1 && w[0] == '-');
            }
        }
        assert(w != "--save"@) by {
            if w == "--save"@ {
                assert(w.len() > 1 && w[0] == '-');
            }
        }
        assert(!is_save_cluster(w));
        lemma_scan_plain_words(words, i + 1, has_save, files.push(w), saves);
        assert(files.push(w) + words.subrange(i + 1, words.len() as int) =~= files
            + words.subrange(i, words.len() as int));
    } else {
        assert(files + words.subrange(i, words.len() as int) =~= files);
    }
}

/// A command line of a subcommand and plain words sends, or gets, exactly
/// those files, in order; `get` saves them only when the environment says
/// so; without a file the line is refused.
pub proof fn lemma_plain_command_lines(
    program: Seq<char>,
    command: Seq<char>,
    files: Seq<Seq<char>>,
    save_env: bool,
)
    requires
        forall|k: int| 0 <= k < files.len() ==> plain_word(#[trigger] files[k]),
    ensures
        (command == "send"@ || command == "s"@) ==> parse_args_spec(
            seq![program, command] + files,
            save_env,
        ) == if files.len() == 0 {
            Err::<SpecCommand, _>(ArgsError::MissingFiles)
        } else {
            Ok(SpecCommand::Send(files))
        },
        (command == "get"@ || command == "d"@) ==> parse_args_spec(
            seq![program, command] + files,
            save_env,
        ) == if files.len() == 0 {
            Err::<SpecCommand, _>(ArgsError::MissingFiles)
        } else {
            Ok(SpecCommand::Get(files, save_env))
        },
{
    reveal_strlit("send");
    reveal_strlit("s");
    reveal_strlit("get");
    reveal_strlit("d");
    let argv = seq![program, command] + files;
    assert forall|k: int| 2 <= k < argv.len() implies plain_word(#[trigger] argv[k]) by {
        assert(argv[k] == files[k - 2]);
    }
    lemma_scan_plain_words(argv, 2, false, seq![], 0);
    lemma_scan_plain_words(argv, 2, true, seq![], 0);
    assert(Seq::<Seq<char>>::empty() + argv.subrange(2, argv.len() as int) =~= files);
    assert("send"@ != "get"@ && "send"@ != "d"@ && "s"@ != "get"@ && "s"@ != "d"@) by {
        assert("send"@.len() != "get"@.len());
        assert("send"@.len() != "d"@.len());
        assert("s"@.len() != "get"@.len());
        assert("s"@[0] != "d"@[0]);
    }
}

/// Plain words from `i` up to `j` are read as files, in order.
proof fn lemma_scan_plain_to(
    words: Seq<Seq<char>>,
    i: int,
    j: int,
    has_save: bool,
    files: Seq<Seq<char>>,
    saves: nat,
)
    requires
        0 <= i <= j <= words.len(),
        forall|k: int| i <= k < j ==> plain_word(#[trigger] words[k]),
    ensures
        scan_words(words, i, has_save, files, saves, false) == scan_words(
            words,
            j,
            has_save,
            files + words.subrange(i, j),
            saves,
            false,
        ),
    decreases j - i,
{
    reveal_strlit("--");
    reveal_strlit("--save");
    if i < j {
        let w = words[i];
        assert(plain_word(w));
        assert(w != "--"@) by {
            if w == "--"@ {
                assert(w.len() > 1 && w[0] == '-');
            }
        }
        assert(w != "--save"@) by {
            if w == "--save"@ {
                assert(w.len() > 1 && w[0] == '-');
            }
        }
        assert(!is_save_cluster(w));
        lemma_scan_plain_to(words, i + 1, j, has_save, files.push(w), saves);
        assert(files.push(w) + words.subrange(i + 1, j) =~= files + words.subrange(i, j));
    } else {
        assert(files + words.subrange(i, j) =~= files);
    }
}

/// Saving is only ever turned on: with the environment switch on, every
/// `get` line that is accepted saves its files.
pub proof fn lemma_environment_turns_saving_on(argv: Seq<Seq<char>>)
    ensures
        parse_args_spec(argv, true) matches Ok(SpecCommand::Get(_, save)) ==> save,
{
}

/// A `get` line (or `d`) that names files and gives the save switch once,
/// as `-s` or `--save` anywhere among the files, gets those files, in
/// order, and saves them, whatever the environment says.
pub proof fn lemma_save_switch_given_once(
    program: Seq<char>,
    command: Seq<char>,
    before: Seq<Seq<char>>,
    switch: Seq<char>,
    after: Seq<Seq<char>>,
    save_env: bool,
)
    requires
        command == "get"@ || command == "d"@,
        switch == "-s"@ || switch == "--save"@,
        before.len() + after.len() > 0,
        forall|k: int| 0 <= k < before.len() ==> plain_word(#[trigger] before[k]),
        forall|k: int| 0 <= k < after.len() ==> plain_word(#[trigger] after[k]),
    ensures
        parse_args_spec(seq![program, command] + before + seq![switch] + after, save_env) == Ok::<
            _,
            ArgsError,
        >(SpecCommand::Get(before + after, true)),
{
    reveal_strlit("send");
    reveal_strlit("s");
    reveal_strlit("get");
    reveal_strlit("d");
    reveal_strlit("-s");
    reveal_strlit("--save");
    reveal_strlit("--");
    let argv = seq![program, command] + before + seq![switch] + after;
    let j: int = 2 + before.len() as int;
    assert forall|k: int| 2 <= k < j implies plain_word(#[trigger] argv[k]) by {
        assert(argv[k] == before[k - 2]);
    }
    assert forall|k: int| j + 1 <= k < argv.len() implies plain_word(#[trigger] argv[k]) by {
        assert(argv[k] == after[k - j - 1]);
    }
    assert(argv[j] == switch);
    lemma_scan_plain_to(argv, 2, j, true, seq![], 0);
    assert(Seq::<Seq<char>>::empty() + argv.subrange(2, j) =~= before);
    assert(switch != "--"@) by {
        if switch == "-s"@ {
            assert(switch[1] != "--"@[1]);
        } else {
            assert(switch.len() != "--"@.len());
        }
    }
    if switch == "-s"@ {
        assert(is_save_cluster(switch));
        assert(switch != "--save"@) by {
            assert(switch.len() != "--save"@.len());
        }
    }
    lemma_scan_plain_words(argv, j + 1, true, before, 1);
    assert(before + argv.subrange(j + 1, argv.len() as int) =~= before + after);
    assert("send"@ != "get"@ && "send"@ != "d"@ && "s"@ != "get"@ && "s"@ != "d"@) by {
        assert("send"@.len() != "get"@.len());
        assert("send"@.len() != "d"@.len());
        assert("s"@.len() != "get"@.len());
        assert("s"@[0] != "d"@[0]);
    }
}

} // verus!
