//! The decisions around running `ls`: which arguments the external command
//! gets, what is printed from its output, and, for the native listing,
//! how the flags are read and how entries and long lines look.

use vstd::prelude::*;
use crate::text::{
    chars_of, dec, has_prefix, join, push_chars, push_decimal, push_str, starts_with_char,
    string_of, string_views,
};
use crate::listing::{compact_listing, compact_ls};

verus! {

/// A short option cluster such as "-la": one dash, not two.
pub open spec fn is_short_flag(a: Seq<char>) -> bool {
    starts_with_char(a, '-') && !has_prefix(a, "--"@)
}

/// An argument that asks for an option: a short cluster holding its
/// letter, or exactly its long form.
pub open spec fn asks_option(a: Seq<char>, letter: char, long: Seq<char>) -> bool {
    (is_short_flag(a) && a.contains(letter)) || a == long
}

/// Some argument asks for the option.
pub open spec fn option_given(args: Seq<Seq<char>>, letter: char, long: Seq<char>) -> bool {
    exists|i: int| 0 <= i < args.len() && asks_option(#[trigger] args[i], letter, long)
}

/// Some argument asks for everything ("-a" in a cluster, or "--all").
pub open spec fn show_all_of(args: Seq<Seq<char>>) -> bool {
    option_given(args, 'a', "--all"@)
}

/// `s` without its leading dashes.
pub open spec fn trim_dashes(s: Seq<char>) -> Seq<char>
    decreases s.len(),
{
    if s.len() > 0 && s[0] == '-' {
        trim_dashes(s.drop_first())
    } else {
        s
    }
}

/// The characters of `s` other than `l`, `a` and `h`.
pub open spec fn other_letters(s: Seq<char>) -> Seq<char>
    decreases s.len(),
{
    if s.len() == 0 {
        seq![]
    } else {
        other_letters(s.drop_last()) + if s.last() == 'l' || s.last() == 'a' || s.last() == 'h' {
            seq![]
        } else {
            seq![s.last()]
        }
    }
}

/// What one flag adds to the `ls -la` command: a long option as it is
/// (but "--all", which "-la" covers); for a short cluster, its letters
/// other than `l`, `a` and `h` behind one dash, if there are any.
pub open spec fn flag_args(a: Seq<char>) -> Seq<Seq<char>> {
    if has_prefix(a, "--"@) {
        if a == "--all"@ {
            seq![]
        } else {
            seq![a]
        }
    } else {
        let extra = other_letters(trim_dashes(a));
        if extra.len() > 0 {
            seq![seq!['-'] + extra]
        } else {
            seq![]
        }
    }
}

/// The command arguments that the flags among `args` give, in order.
pub open spec fn flag_part(args: Seq<Seq<char>>) -> Seq<Seq<char>>
    decreases args.len(),
{
    if args.len() == 0 {
        seq![]
    } else {
        flag_part(args.drop_last()) + if starts_with_char(args.last(), '-') {
            flag_args(args.last())
        } else {
            seq![]
        }
    }
}

/// The arguments that do not start with a dash, in order.
pub open spec fn path_part(args: Seq<Seq<char>>) -> Seq<Seq<char>>
    decreases args.len(),
{
    if args.len() == 0 {
        seq![]
    } else {
        path_part(args.drop_last()) + if starts_with_char(args.last(), '-') {
            seq![]
        } else {
            seq![args.last()]
        }
    }
}

/// The arguments given to `ls`: "-la", the translated flags, then the
/// paths, or "." where there are none.
pub open spec fn ls_command(args: Seq<Seq<char>>) -> Seq<Seq<char>> {
    seq!["-la"@] + flag_part(args) + if path_part(args).len() == 0 {
        seq!["."@]
    } else {
        path_part(args)
    }
}

/// The listed target as shown in the tracking label: the paths joined by
/// spaces, or ".".
pub open spec fn target_display(args: Seq<Seq<char>>) -> Seq<char> {
    if path_part(args).len() == 0 {
        "."@
    } else {
        join(path_part(args), " "@)
    }
}

/// What is printed from the compact listing: the summary only on a
/// terminal.
pub open spec fn shown_output(entries: Seq<char>, summary: Seq<char>, stdout_is_tty: bool) -> Seq<
    char,
> {
    if stdout_is_tty {
        entries + summary
    } else {
        entries
    }
}

/// A planned run of the external `ls`, and what is needed to filter its
/// output.
pub struct LsRun {
    /// Whether hidden noise entries stay in the listing.
    pub show_all: bool,
    /// The verbosity level given.
    pub verbose: u8,
    /// The arguments for the `ls` program.
    pub command: Vec<String>,
    /// The original command as recorded for savings tracking ("-la <target>").
    pub label: String,
}

/// Whether `s` starts with `c`.
pub(crate) fn first_is(s: &Vec<char>, c: char) -> (r: bool)
    ensures
        r == starts_with_char(s@, c),
{
    s.len() > 0 && s[0] == c
}

/// Whether `s` starts with "--".
pub(crate) fn is_long(s: &Vec<char>) -> (r: bool)
    ensures
        r == has_prefix(s@, "--"@),
{
    crate::listing::starts_with_str(s, "--")
}

/// Whether `s` contains `c`.
fn contains_char(s: &Vec<char>, c: char) -> (r: bool)
    ensures
        r == s@.contains(c),
{
    let mut i: usize = 0;
    while i < s.len()
        invariant
            i <= s.len(),
            forall|j: int| 0 <= j < i ==> s@[j] != c,
        decreases s.len() - i,
    {
        if s[i] == c {
            return true;
        }
        i = i + 1;
    }
    false
}

/// Whether `a` holds exactly the characters of `lit`.
pub(crate) fn is_exactly(a: &Vec<char>, lit: &str) -> (r: bool)
    ensures
        r == (a@ == lit@),
{
    crate::text::eq_str(a, lit)
}

/// Whether the argument asks for the option (see [`asks_option`]).
fn asks_option_exec(a: &Vec<char>, letter: char, long: &str) -> (r: bool)
    ensures
        r == asks_option(a@, letter, long@),
{
    (first_is(a, '-') && !is_long(a) && contains_char(a, letter)) || is_exactly(a, long)
}

/// The characters of the arguments.
pub(crate) fn arg_chars(args: &[String]) -> (r: Vec<Vec<char>>)
    ensures
        crate::text::views(r@) == string_views(args@),
{
    let mut out: Vec<Vec<char>> = Vec::new();
    let mut i: usize = 0;
    while i < args.len()
        invariant
            i <= args.len(),
            crate::text::views(out@) == string_views(args@).take(i as int),
        decreases args.len() - i,
    {
        let ghost before = out@;
        let a = chars_of(args[i].as_str());
        assert(a@ == string_views(args@)[i as int]);
        out.push(a);
        assert(crate::text::views(out@) =~= crate::text::views(before).push(a@));
        assert(string_views(args@).take(i + 1) =~= string_views(args@).take(i as int).push(a@));
        i = i + 1;
        assert(crate::text::views(out@) =~= string_views(args@).take(i as int));
    }
    assert(string_views(args@).take(args.len() as int) == string_views(args@));
    out
}

/// Whether some argument asks for the option (see [`option_given`]).
pub(crate) fn option_given_exec(args: &Vec<Vec<char>>, letter: char, long: &str) -> (r: bool)
    ensures
        r == option_given(crate::text::views(args@), letter, long@),
{
    let ghost v = crate::text::views(args@);
    let mut i: usize = 0;
    while i < args.len()
        invariant
            i <= args.len(),
            v == crate::text::views(args@),
            forall|j: int| 0 <= j < i ==> !asks_option(#[trigger] v[j], letter, long@),
        decreases args.len() - i,
    {
        assert(v[i as int] == args@[i as int]@);
        if asks_option_exec(&args[i], letter, long) {
            return true;
        }
        i = i + 1;
    }
    false
}

/// `s` without its leading dashes (see [`trim_dashes`]).
fn trim_dashes_exec(s: &Vec<char>) -> (r: Vec<char>)
    ensures
        r@ == trim_dashes(s@),
{
    let mut i: usize = 0;
    assert(s@.skip(0) == s@);
    while i < s.len() && s[i] == '-'
        invariant
            i <= s.len(),
            trim_dashes(s@) == trim_dashes(s@.skip(i as int)),
        decreases s.len() - i,
    {
        assert(s@.skip(i as int).drop_first() == s@.skip(i + 1));
        i = i + 1;
    }
    let mut out: Vec<char> = Vec::new();
    let mut j: usize = i;
    while j < s.len()
        invariant
            i <= j <= s.len(),
            out@ == s@.subrange(i as int, j as int),
        decreases s.len() - j,
    {
        out.push(s[j]);
        j = j + 1;
        assert(out@ =~= s@.subrange(i as int, j as int));
    }
    assert(out@ =~= s@.skip(i as int));
    out
}

/// The characters of `s` other than `l`, `a` and `h` (see [`other_letters`]).
pub(crate) fn other_letters_exec(s: &Vec<char>) -> (r: Vec<char>)
    ensures
        r@ == other_letters(s@),
{
    let mut out: Vec<char> = Vec::new();
    let mut i: usize = 0;
    while i < s.len()
        invariant
            i <= s.len(),
            out@ == other_letters(s@.take(i as int)),
        decreases s.len() - i,
    {
        assert(s@.take(i + 1).drop_last() == s@.take(i as int));
        let c = s[i];
        if !(c == 'l' || c == 'a' || c == 'h') {
            out.push(c);
        }
        i = i + 1;
        assert(out@ =~= other_letters(s@.take(i as int)));
    }
    assert(s@.take(s.len() as int) == s@);
    out
}

/// Appends what one flag adds to the command (see [`flag_args`]).
fn push_flag_args(out: &mut Vec<Vec<char>>, a: &Vec<char>)
    ensures
        crate::text::views(final(out)@) == crate::text::views(old(out)@) + flag_args(a@),
{
    let ghost before = out@;
    if is_long(a) {
        if !is_exactly(a, "--all") {
            let mut copy: Vec<char> = Vec::new();
            push_chars(&mut copy, a);
            out.push(copy);
        }
    } else {
        let trimmed = trim_dashes_exec(a);
        let extra = other_letters_exec(&trimmed);
        if extra.len() > 0 {
            let mut flag: Vec<char> = Vec::new();
            flag.push('-');
            push_chars(&mut flag, &extra);
            out.push(flag);
        }
    }
    assert(crate::text::views(out@) =~= crate::text::views(before) + flag_args(a@));
}

/// The `ls` arguments for the given arguments (see [`ls_command`]), and the
/// paths among them.
pub(crate) fn command_parts(args: &Vec<Vec<char>>) -> (r: (Vec<Vec<char>>, Vec<Vec<char>>))
    ensures
        crate::text::views(r.0@) == ls_command(crate::text::views(args@)),
        crate::text::views(r.1@) == path_part(crate::text::views(args@)),
{
    let ghost v = crate::text::views(args@);
    let mut flags: Vec<Vec<char>> = Vec::new();
    let mut paths: Vec<Vec<char>> = Vec::new();
    let mut i: usize = 0;
    while i < args.len()
        invariant
            i <= args.len(),
            v == crate::text::views(args@),
            crate::text::views(flags@) == flag_part(v.take(i as int)),
            crate::text::views(paths@) == path_part(v.take(i as int)),
        decreases args.len() - i,
    {
        assert(v.take(i + 1).drop_last() == v.take(i as int));
        assert(v.take(i + 1).last() == args@[i as int]@);
        let a = &args[i];
        let ghost pb = paths@;
        if first_is(a, '-') {
            push_flag_args(&mut flags, a);
        } else {
            let mut copy: Vec<char> = Vec::new();
            push_chars(&mut copy, a);
            paths.push(copy);
            assert(crate::text::views(paths@) =~= crate::text::views(pb).push(a@));
        }
        i = i + 1;
        assert(crate::text::views(paths@) =~= path_part(v.take(i as int)));
        assert(crate::text::views(flags@) =~= flag_part(v.take(i as int)));
    }
    assert(v.take(args.len() as int) == v);
    let mut command: Vec<Vec<char>> = Vec::new();
    command.push(chars_of("-la"));
    let mut k: usize = 0;
    while k < flags.len()
        invariant
            k <= flags.len(),
            crate::text::views(command@) == seq!["-la"@] + crate::text::views(flags@).take(
                k as int,
            ),
        decreases flags.len() - k,
    {
        let ghost cb = command@;
        let mut copy: Vec<char> = Vec::new();
        push_chars(&mut copy, &flags[k]);
        let ghost cv = copy@;
        assert(cv == crate::text::views(flags@)[k as int]);
        command.push(copy);
        assert(crate::text::views(command@) =~= crate::text::views(cb).push(cv));
        assert(crate::text::views(flags@).take(k + 1) =~= crate::text::views(flags@).take(k as int).push(cv));
        k = k + 1;
        assert(crate::text::views(command@) =~= seq!["-la"@] + crate::text::views(flags@).take(
            k as int,
        ));
    }
    assert(crate::text::views(flags@).take(flags.len() as int) == crate::text::views(flags@));
    let ghost with_flags = command@;
    if paths.len() == 0 {
        command.push(chars_of("."));
        assert(crate::text::views(command@) =~= crate::text::views(with_flags).push("."@));
    } else {
        let mut m: usize = 0;
        while m < paths.len()
            invariant
                m <= paths.len(),
                crate::text::views(command@) == crate::text::views(with_flags)
                    + crate::text::views(paths@).take(m as int),
            decreases paths.len() - m,
        {
            let ghost cb = command@;
            let mut copy: Vec<char> = Vec::new();
            push_chars(&mut copy, &paths[m]);
            let ghost cv = copy@;
            assert(cv == crate::text::views(paths@)[m as int]);
            command.push(copy);
            assert(crate::text::views(command@) =~= crate::text::views(cb).push(cv));
            assert(crate::text::views(paths@).take(m + 1) =~= crate::text::views(paths@).take(m as int).push(cv));
            m = m + 1;
            assert(crate::text::views(command@) =~= crate::text::views(with_flags)
                + crate::text::views(paths@).take(m as int));
        }
        assert(crate::text::views(paths@).take(paths.len() as int) == crate::text::views(paths@));
    }
    assert(crate::text::views(command@) =~= ls_command(v));
    (command, paths)
}

/// Strings of the given character vectors.
pub(crate) fn strings_of(parts: &Vec<Vec<char>>) -> (r: Vec<String>)
    ensures
        string_views(r@) == crate::text::views(parts@),
{
    let mut out: Vec<String> = Vec::new();
    let mut i: usize = 0;
    while i < parts.len()
        invariant
            i <= parts.len(),
            string_views(out@) == crate::text::views(parts@).take(i as int),
        decreases parts.len() - i,
    {
        let ghost ob = out@;
        let s = string_of(&parts[i]);
        let ghost sv = s@;
        assert(sv == crate::text::views(parts@)[i as int]);
        out.push(s);
        assert(string_views(out@) =~= string_views(ob).push(sv));
        assert(crate::text::views(parts@).take(i + 1) =~= crate::text::views(parts@).take(i as int).push(sv));
        i = i + 1;
        assert(string_views(out@) =~= crate::text::views(parts@).take(i as int));
    }
    assert(crate::text::views(parts@).take(parts.len() as int) == crate::text::views(parts@));
    out
}

/// The parts joined by single spaces.
pub(crate) fn join_spaces(parts: &Vec<Vec<char>>) -> (r: Vec<char>)
    ensures
        r@ == join(crate::text::views(parts@), " "@),
{
    let sp = chars_of(" ");
    assert(sp@ == seq![' ']) by {
        reveal_strlit(" ");
        assert(sp@ =~= seq![' ']);
    }
    let r = crate::text::join_from(parts, 0);
    assert(crate::text::views(parts@).skip(0) == crate::text::views(parts@));
    r
}

/// Plans a run of `ls`: the arguments for the external command ("-la",
/// the remaining short letters and long options, then the paths or "."),
/// whether everything is to be shown (`-a` in a short cluster or
/// `--all`), and the tracking label "-la <paths>". The output then goes
/// through [`LsRun::filter`].
pub fn run(args: &[String], verbose: u8) -> (plan: LsRun)
    ensures
        plan.show_all == show_all_of(string_views(args@)),
        plan.verbose == verbose,
        string_views(plan.command@) == ls_command(string_views(args@)),
        plan.label@ == "-la "@ + target_display(string_views(args@)),
{
    let a = arg_chars(args);
    let show_all = option_given_exec(&a, 'a', "--all");
    let (command, paths) = command_parts(&a);
    let mut label = chars_of("-la ");
    if paths.len() == 0 {
        push_str(&mut label, ".");
    } else {
        let joined = join_spaces(&paths);
        push_chars(&mut label, &joined);
    }
    LsRun { show_all, verbose, command: strings_of(&command), label: string_of(&label) }
}

/// The text to print: the entries, followed by the summary only when
/// standard output is a terminal.
pub fn choose_output(entries: &str, summary: &str, stdout_is_tty: bool) -> (r: String)
    ensures
        r@ == shown_output(entries@, summary@, stdout_is_tty),
{
    let mut out = chars_of(entries);
    if stdout_is_tty {
        push_str(&mut out, summary);
    }
    string_of(&out)
}

impl LsRun {
    /// Turns the output of the planned `ls` run into what is printed.
    pub fn filter(&self, raw: &str, stdout_is_tty: bool) -> (r: String)
        ensures
            r@ == shown_output(
                compact_listing(raw@, self.show_all).0,
                compact_listing(raw@, self.show_all).1,
                stdout_is_tty,
            ),
    {
        let (entries, summary) = compact_ls(raw, self.show_all);
        choose_output(entries.as_str(), summary.as_str(), stdout_is_tty)
    }
}

/// The percentage by which the output shrank: 100 minus the filtered size
/// in percent of the raw size, or 0 for an empty raw text.
pub open spec fn reduction_percent(raw_len: nat, filtered_len: nat) -> int {
    if raw_len > 0 {
        100 - (filtered_len * 100) / raw_len
    } else {
        0
    }
}

/// The verbose report "Chars: <raw> → <filtered> (<percent>% reduction)".
pub open spec fn reduction_text(raw_len: nat, filtered_len: nat) -> Seq<char> {
    "Chars: "@ + dec(raw_len) + " \u{2192} "@ + dec(filtered_len) + " ("@ + dec(
        reduction_percent(raw_len, filtered_len) as nat,
    ) + "% reduction)"@
}

/// Reports how much shorter the filtered text is than the raw one (byte
/// lengths). The filtered text must not be larger than the raw one, where
/// the percentage would go below zero.
pub fn reduction_note(raw_len: usize, filtered_len: usize) -> (r: String)
    requires
        raw_len > 0 ==> filtered_len * 100 <= usize::MAX && (filtered_len * 100) / (raw_len as int)
            <= 100,
    ensures
        r@ == reduction_text(raw_len as nat, filtered_len as nat),
{
    let pct: usize = if raw_len > 0 {
        100 - (filtered_len * 100) / raw_len
    } else {
        0
    };
    let mut out = chars_of("Chars: ");
    push_decimal(&mut out, raw_len as u64);
    push_str(&mut out, " \u{2192} ");
    push_decimal(&mut out, filtered_len as u64);
    push_str(&mut out, " (");
    push_decimal(&mut out, pct as u64);
    push_str(&mut out, "% reduction)");
    assert(out@ =~= reduction_text(raw_len as nat, filtered_len as nat));
    string_of(&out)
}

} // verus!
