//! The decisions of the native listing (used where no `ls` program is
//! called): reading the flags, which entries stay, and how long-format
//! and raw lines look. The directory itself is read by the caller.

use vstd::prelude::*;
use crate::text::{
    chars_of, dec, has_prefix, join, pad_left, push_chars, push_decimal, push_str,
    starts_with_char, string_of, string_views, views,
};
use crate::listing::{is_noise, is_noise_name, push_padded};
use crate::size::{human_size_text, push_human_size};
use crate::invocation::{
    arg_chars, command_parts, first_is, is_exactly, is_long, is_short_flag, option_given,
    option_given_exec, other_letters, other_letters_exec, path_part, strings_of,
};

verus! {

/// A flag that the native listing does not support: a short cluster with
/// a letter other than `a`, `l` and `h` after its dash, or a long option
/// other than "--all", "--long" and "--human-readable".
pub open spec fn is_unsupported(a: Seq<char>) -> bool {
    if is_short_flag(a) {
        other_letters(a.drop_first()).len() > 0
    } else if has_prefix(a, "--"@) {
        a != "--all"@ && a != "--long"@ && a != "--human-readable"@
    } else {
        false
    }
}

/// The unsupported flags among `args`, in order.
pub open spec fn unsupported_part(args: Seq<Seq<char>>) -> Seq<Seq<char>>
    decreases args.len(),
{
    if args.len() == 0 {
        seq![]
    } else {
        unsupported_part(args.drop_last()) + if is_unsupported(args.last()) {
            seq![args.last()]
        } else {
            seq![]
        }
    }
}

/// The directory to list: the first argument that is not a flag, or ".".
pub open spec fn dir_path_of(args: Seq<Seq<char>>) -> Seq<char> {
    if path_part(args).len() == 0 {
        "."@
    } else {
        path_part(args)[0]
    }
}

/// The options of a native listing.
pub struct NativeOptions {
    /// `-a` or `--all`: keep hidden and noise entries.
    pub show_all: bool,
    /// `-l` or `--long`: long-format lines.
    pub long_format: bool,
    /// `-h` or `--human-readable`: sizes as "1.2K".
    pub human_readable: bool,
    /// The directory to list.
    pub dir_path: String,
    /// The flags that are ignored because they are not supported.
    pub unsupported: Vec<String>,
}

/// Whether `a` is an unsupported flag (see [`is_unsupported`]).
fn is_unsupported_exec(a: &Vec<char>) -> (r: bool)
    ensures
        r == is_unsupported(a@),
{
    if first_is(a, '-') && !is_long(a) {
        let mut rest: Vec<char> = Vec::new();
        let mut i: usize = 1;
        while i < a.len()
            invariant
                1 <= i <= a.len(),
                rest@ == a@.subrange(1, i as int),
            decreases a.len() - i,
        {
            rest.push(a[i]);
            i = i + 1;
            assert(rest@ =~= a@.subrange(1, i as int));
        }
        assert(rest@ =~= a@.drop_first());
        other_letters_exec(&rest).len() > 0
    } else if is_long(a) {
        !is_exactly(a, "--all") && !is_exactly(a, "--long") && !is_exactly(a, "--human-readable")
    } else {
        false
    }
}

/// Reads the flags of a native listing: `-a`/`--all`, `-l`/`--long` and
/// `-h`/`--human-readable` (also inside short clusters such as "-la"),
/// the directory (the first argument without a leading dash, else "."),
/// and the flags that are not supported.
pub fn parse_native_args(args: &[String]) -> (o: NativeOptions)
    ensures
        o.show_all == option_given(string_views(args@), 'a', "--all"@),
        o.long_format == option_given(string_views(args@), 'l', "--long"@),
        o.human_readable == option_given(string_views(args@), 'h', "--human-readable"@),
        o.dir_path@ == dir_path_of(string_views(args@)),
        string_views(o.unsupported@) == unsupported_part(string_views(args@)),
{
    let a = arg_chars(args);
    let ghost v = views(a@);
    let show_all = option_given_exec(&a, 'a', "--all");
    let long_format = option_given_exec(&a, 'l', "--long");
    let human_readable = option_given_exec(&a, 'h', "--human-readable");
    let (_command, paths) = command_parts(&a);
    let dir = if paths.len() == 0 {
        chars_of(".")
    } else {
        let mut first: Vec<char> = Vec::new();
        push_chars(&mut first, &paths[0]);
        assert(first@ == views(paths@)[0]);
        first
    };
    let mut unsupported: Vec<Vec<char>> = Vec::new();
    let mut i: usize = 0;
    while i < a.len()
        invariant
            i <= a.len(),
            v == views(a@),
            views(unsupported@) == unsupported_part(v.take(i as int)),
        decreases a.len() - i,
    {
        assert(v.take(i + 1).drop_last() == v.take(i as int));
        assert(v.take(i + 1).last() == a@[i as int]@);
        let ghost ub = unsupported@;
        if is_unsupported_exec(&a[i]) {
            let mut copy: Vec<char> = Vec::new();
            push_chars(&mut copy, &a[i]);
            let ghost cv = copy@;
            unsupported.push(copy);
            assert(views(unsupported@) =~= views(ub).push(cv));
        }
        i = i + 1;
        assert(views(unsupported@) =~= unsupported_part(v.take(i as int)));
    }
    assert(v.take(a.len() as int) == v);
    NativeOptions {
        show_all,
        long_format,
        human_readable,
        dir_path: string_of(&dir),
        unsupported: strings_of(&unsupported),
    }
}

/// The verbose note about ignored flags.
pub open spec fn unsupported_text(flags: Seq<Seq<char>>) -> Seq<char> {
    "rtk ls (Windows): unsupported flags ignored: "@ + join(flags, ", "@)
}

/// The note "rtk ls (Windows): unsupported flags ignored: <flags>".
pub fn unsupported_note(flags: &[String]) -> (r: String)
    ensures
        r@ == unsupported_text(string_views(flags@)),
{
    let ghost v = string_views(flags@);
    let mut out = chars_of("rtk ls (Windows): unsupported flags ignored: ");
    let ghost start = out@;
    let mut i: usize = 0;
    while i < flags.len()
        invariant
            i <= flags.len(),
            v == string_views(flags@),
            out@ == start + join(v.take(i as int), ", "@),
        decreases flags.len() - i,
    {
        let ghost prev = v.take(i as int);
        let ghost next = v.take(i + 1);
        assert(next.drop_last() == prev);
        assert(next.last() == flags@[i as int]@);
        if i > 0 {
            push_str(&mut out, ", ");
        }
        push_str(&mut out, flags[i].as_str());
        i = i + 1;
        proof {
            if next.len() == 1 {
                assert(out@ =~= start + next[0]);
            } else {
                assert(out@ =~= start + (join(prev, ", "@) + ", "@ + next.last()));
            }
        }
    }
    assert(v.take(flags.len() as int) == v);
    string_of(&out)
}

/// Whether a directory entry stays in a native listing: everything stays
/// with `show_all`; otherwise names starting with `.` and noise names go.
pub fn keep_entry(name: &str, show_all: bool) -> (r: bool)
    ensures
        r == (show_all || !(starts_with_char(name@, '.') || is_noise(name@))),
{
    if show_all {
        return true;
    }
    let n = chars_of(name);
    !(first_is(&n, '.') || is_noise_name(&n))
}

/// The modification time as shown: "<days since the epoch, modulo 365>d
/// ago", or "unknown" where it could not be read.
pub open spec fn timestamp_text(modified_secs: Option<u64>) -> Seq<char> {
    match modified_secs {
        Some(secs) => dec(((secs / 86400) % 365) as nat) + "d ago"@,
        None => "unknown"@,
    }
}

fn push_timestamp(out: &mut Vec<char>, modified_secs: Option<u64>)
    ensures
        final(out)@ == old(out)@ + timestamp_text(modified_secs),
{
    match modified_secs {
        Some(secs) => {
            push_decimal(out, (secs / 86400) % 365);
            push_str(out, "d ago");
        },
        None => push_str(out, "unknown"),
    }
    assert(final(out)@ =~= old(out)@ + timestamp_text(modified_secs));
}

/// Formats the modification time, given in seconds since the Unix epoch
/// (see [`timestamp_text`]).
pub fn format_timestamp(modified_secs: Option<u64>) -> (r: String)
    ensures
        r@ == timestamp_text(modified_secs),
{
    let mut out: Vec<char> = Vec::new();
    push_timestamp(&mut out, modified_secs);
    assert(out@ =~= timestamp_text(modified_secs));
    string_of(&out)
}

/// The size column of a long line: human-readable or in bytes.
pub open spec fn size_text(size: u64, human_readable: bool) -> Seq<char> {
    if human_readable {
        human_size_text(size as nat)
    } else {
        dec(size as nat)
    }
}

/// A long-format line for a file, in the style of `ls -l`: the read-only
/// flag as the permissions, the size right-aligned in eight columns, the
/// modification time and the name.
pub open spec fn long_entry_text(
    name: Seq<char>,
    size: u64,
    readonly: bool,
    modified_secs: Option<u64>,
    human_readable: bool,
) -> Seq<char> {
    "-"@ + (if readonly {
        "r--"@
    } else {
        "rw-"@
    }) + "-------  1 user  group "@ + pad_left(size_text(size, human_readable), 8) + " "@
        + timestamp_text(modified_secs) + " "@ + name
}

fn push_long_entry(
    out: &mut Vec<char>,
    name: &str,
    size: u64,
    readonly: bool,
    modified_secs: Option<u64>,
    human_readable: bool,
)
    ensures
        final(out)@ == old(out)@ + long_entry_text(
            name@,
            size,
            readonly,
            modified_secs,
            human_readable,
        ),
{
    let mut size_str: Vec<char> = Vec::new();
    if human_readable {
        push_human_size(&mut size_str, size);
    } else {
        push_decimal(&mut size_str, size);
    }
    assert(size_str@ =~= size_text(size, human_readable));
    push_str(out, "-");
    if readonly {
        push_str(out, "r--");
    } else {
        push_str(out, "rw-");
    }
    push_str(out, "-------  1 user  group ");
    push_padded(out, &size_str, 8);
    push_str(out, " ");
    push_timestamp(out, modified_secs);
    push_str(out, " ");
    push_str(out, name);
    assert(final(out)@ =~= old(out)@ + long_entry_text(
        name@,
        size,
        readonly,
        modified_secs,
        human_readable,
    ));
}

/// Formats a long-format line for a file (see [`long_entry_text`]).
pub fn format_long_entry(
    name: &str,
    size: u64,
    readonly: bool,
    modified_secs: Option<u64>,
    human_readable: bool,
) -> (r: String)
    ensures
        r@ == long_entry_text(name@, size, readonly, modified_secs, human_readable),
{
    let mut out: Vec<char> = Vec::new();
    push_long_entry(&mut out, name, size, readonly, modified_secs, human_readable);
    assert(out@ =~= long_entry_text(name@, size, readonly, modified_secs, human_readable));
    string_of(&out)
}

/// The line that an entry adds to the unfiltered text (which only serves
/// to measure the savings): in long format a directory line or the
/// file's long line, otherwise the bare name; each ends the line.
pub open spec fn raw_line_text(
    name: Seq<char>,
    is_dir: bool,
    long_format: bool,
    size: u64,
    readonly: bool,
    modified_secs: Option<u64>,
    human_readable: bool,
) -> Seq<char> {
    if long_format {
        if is_dir {
            "d---------  1 user  group      0 "@ + timestamp_text(modified_secs) + " "@ + name
                + "\n"@
        } else {
            long_entry_text(name, size, readonly, modified_secs, human_readable) + "\n"@
        }
    } else {
        name + "\n"@
    }
}

/// Formats the unfiltered line of an entry (see [`raw_line_text`]).
pub fn raw_line(
    name: &str,
    is_dir: bool,
    long_format: bool,
    size: u64,
    readonly: bool,
    modified_secs: Option<u64>,
    human_readable: bool,
) -> (r: String)
    ensures
        r@ == raw_line_text(name@, is_dir, long_format, size, readonly, modified_secs, human_readable),
{
    let mut out: Vec<char> = Vec::new();
    if long_format {
        if is_dir {
            push_str(&mut out, "d---------  1 user  group      0 ");
            push_timestamp(&mut out, modified_secs);
            push_str(&mut out, " ");
            push_str(&mut out, name);
        } else {
            push_long_entry(&mut out, name, size, readonly, modified_secs, human_readable);
        }
    } else {
        push_str(&mut out, name);
    }
    push_str(&mut out, "\n");
    assert(out@ =~= raw_line_text(
        name@,
        is_dir,
        long_format,
        size,
        readonly,
        modified_secs,
        human_readable,
    ));
    string_of(&out)
}

} // verus!
