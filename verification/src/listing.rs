//! Compact rendering of `ls -la` output: directories first with a trailing
//! `/`, then files with a human-readable size, then a summary line with
//! the most common extensions.

use vstd::prelude::*;
use crate::text::{
    chars_of, dec, eq_chars, eq_str, last_index, last_index_of, has_prefix, join, join_from, lines, parse_decimal_u64, parse_u64, pad_left, string_views, split_lines, split_words, push_chars, push_str, push_decimal, string_of,
    starts_with_char, views, words,
};
use crate::size::{human_size_text, push_human_size};

verus! {

/// Names hidden from a listing unless everything is asked for.
pub open spec fn is_noise(name: Seq<char>) -> bool {
    ||| name == "node_modules"@
    ||| name == ".git"@
    ||| name == "target"@
    ||| name == "__pycache__"@
    ||| name == ".next"@
    ||| name == "dist"@
    ||| name == "build"@
    ||| name == ".cache"@
    ||| name == ".turbo"@
    ||| name == ".vercel"@
    ||| name == ".pytest_cache"@
    ||| name == ".mypy_cache"@
    ||| name == ".tox"@
    ||| name == ".venv"@
    ||| name == "venv"@
    ||| name == "coverage"@
    ||| name == ".nyc_output"@
    ||| name == ".DS_Store"@
    ||| name == "Thumbs.db"@
    ||| name == ".idea"@
    ||| name == ".vscode"@
    ||| name == ".vs"@
    ||| name == "*.egg-info"@
    ||| name == ".eggs"@
}

/// Whether `name` is one of the noise names (see [`is_noise`]).
pub fn is_noise_name(name: &Vec<char>) -> (r: bool)
    ensures
        r == is_noise(name@),
{
    eq_str(name, "node_modules") || eq_str(name, ".git") || eq_str(name, "target") || eq_str(
        name,
        "__pycache__",
    ) || eq_str(name, ".next") || eq_str(name, "dist") || eq_str(name, "build") || eq_str(
        name,
        ".cache",
    ) || eq_str(name, ".turbo") || eq_str(name, ".vercel") || eq_str(name, ".pytest_cache")
        || eq_str(name, ".mypy_cache") || eq_str(name, ".tox") || eq_str(name, ".venv") || eq_str(
        name,
        "venv",
    ) || eq_str(name, "coverage") || eq_str(name, ".nyc_output") || eq_str(name, ".DS_Store")
        || eq_str(name, "Thumbs.db") || eq_str(name, ".idea") || eq_str(name, ".vscode") || eq_str(
        name,
        ".vs",
    ) || eq_str(name, "*.egg-info") || eq_str(name, ".eggs")
}

/// The size column of a listing line: its number, or 0 where it is not one.
pub open spec fn size_field(field: Seq<char>) -> u64 {
    match parse_u64(field) {
        Some(v) => v,
        None => 0,
    }
}

/// What one line of `ls -la` contributes: `(true, name, 0)` for a
/// directory, `(false, name, size)` for a regular file or a symlink, or
/// nothing (the "total" line, blank or short lines, `.` and `..`, noise
/// names unless `show_all`, and other file types). The name is everything
/// from the ninth column on, joined with single spaces.
pub open spec fn line_entry(line: Seq<char>, show_all: bool) -> Option<(bool, Seq<char>, u64)> {
    if has_prefix(line, "total "@) || line.len() == 0 {
        None
    } else {
        let parts = words(line);
        if parts.len() < 9 {
            None
        } else {
            let name = join(parts.skip(8), seq![' ']);
            if name == "."@ || name == ".."@ {
                None
            } else if !show_all && is_noise(name) {
                None
            } else if starts_with_char(parts[0], 'd') {
                Some((true, name, 0u64))
            } else if starts_with_char(parts[0], '-') || starts_with_char(parts[0], 'l') {
                Some((false, name, size_field(parts[4])))
            } else {
                None
            }
        }
    }
}

/// The directories and the files (name and size) of a listing, in the
/// order of its lines.
pub open spec fn listing(ls: Seq<Seq<char>>, show_all: bool) -> (
    Seq<Seq<char>>,
    Seq<(Seq<char>, u64)>,
)
    decreases ls.len(),
{
    if ls.len() == 0 {
        (seq![], seq![])
    } else {
        let (d, f) = listing(ls.drop_last(), show_all);
        match line_entry(ls.last(), show_all) {
            Some((is_dir, name, size)) => if is_dir {
                (d.push(name), f)
            } else {
                (d, f.push((name, size)))
            },
            None => (d, f),
        }
    }
}

/// Name-and-size pairs from two parallel sequences.
pub open spec fn file_pairs(names: Seq<Seq<char>>, sizes: Seq<u64>) -> Seq<(Seq<char>, u64)> {
    Seq::new(names.len(), |i: int| (names[i], sizes[i]))
}

/// Whether `v` begins with the characters of `p`.
pub fn starts_with_str(v: &Vec<char>, p: &str) -> (r: bool)
    ensures
        r == has_prefix(v@, p@),
{
    let q = chars_of(p);
    if q.len() > v.len() {
        return false;
    }
    let mut i: usize = 0;
    while i < q.len()
        invariant
            i <= q.len() <= v.len(),
            q@ == p@,
            forall|j: int| 0 <= j < i ==> v@[j] == q@[j],
        decreases q.len() - i,
    {
        if v[i] != q[i] {
            assert(v@.take(q.len() as int)[i as int] != q@[i as int]);
            assert(v@.take(q.len() as int) != q@);
            return false;
        }
        i = i + 1;
    }
    assert(v@.take(q.len() as int) =~= q@);
    true
}

/// Classifies one line of `ls -la` output (see [`line_entry`]).
pub fn classify_line(line: &Vec<char>, show_all: bool) -> (r: Option<(bool, Vec<char>, u64)>)
    ensures
        match r {
            Some(t) => line_entry(line@, show_all) == Some((t.0, t.1@, t.2)),
            None => line_entry(line@, show_all) is None,
        },
{
    if starts_with_str(line, "total ") || line.len() == 0 {
        return None;
    }
    let parts = split_words(line);
    if parts.len() < 9 {
        return None;
    }
    let name = join_from(&parts, 8);
    if eq_str(&name, ".") || eq_str(&name, "..") {
        return None;
    }
    if !show_all && is_noise_name(&name) {
        return None;
    }
    let first = &parts[0];
    assert(first@ == views(parts@)[0]);
    if first.len() > 0 && first[0] == 'd' {
        Some((true, name, 0))
    } else if first.len() > 0 && (first[0] == '-' || first[0] == 'l') {
        let size = match parse_decimal_u64(&parts[4]) {
            Some(v) => v,
            None => 0,
        };
        assert(parts[4]@ == views(parts@)[4]);
        Some((false, name, size))
    } else {
        None
    }
}

/// The directories and files of the given lines (see [`listing`]).
pub fn collect_entries(lines: &Vec<Vec<char>>, show_all: bool) -> (r: (
    Vec<Vec<char>>,
    Vec<Vec<char>>,
    Vec<u64>,
))
    ensures
        r.1.len() == r.2.len(),
        (views(r.0@), file_pairs(views(r.1@), r.2@)) == listing(views(lines@), show_all),
{
    let mut dirs: Vec<Vec<char>> = Vec::new();
    let mut names: Vec<Vec<char>> = Vec::new();
    let mut sizes: Vec<u64> = Vec::new();
    let mut i: usize = 0;
    while i < lines.len()
        invariant
            i <= lines.len(),
            names.len() == sizes.len(),
            (views(dirs@), file_pairs(views(names@), sizes@)) == listing(
                views(lines@).take(i as int),
                show_all,
            ),
        decreases lines.len() - i,
    {
        let ghost prev = views(lines@).take(i as int);
        let ghost next = views(lines@).take(i + 1);
        assert(next.drop_last() == prev);
        assert(next.last() == lines@[i as int]@);
        let ghost d0 = dirs@;
        let ghost n0 = names@;
        let ghost s0 = sizes@;
        match classify_line(&lines[i], show_all) {
            Some((is_dir, name, size)) => {
                if is_dir {
                    dirs.push(name);
                    assert(views(dirs@) =~= views(d0).push(name@));
                } else {
                    names.push(name);
                    sizes.push(size);
                    assert(views(names@) =~= views(n0).push(name@));
                    assert(file_pairs(views(names@), sizes@) =~= file_pairs(views(n0), s0).push(
                        (name@, size),
                    ));
                }
            },
            None => {},
        }
        i = i + 1;
    }
    assert(views(lines@).take(lines.len() as int) == views(lines@));
    (dirs, names, sizes)
}


/// The extension that the summary counts a file under: everything from
/// the last `.` of its name on, or "no ext".
pub open spec fn extension(name: Seq<char>) -> Seq<char> {
    match last_index_of(name, '.') {
        Some(i) => name.skip(i),
        None => "no ext"@,
    }
}

/// The first index at or after `i` whose key is `e`.
pub open spec fn key_pos_from(t: Seq<(Seq<char>, nat)>, e: Seq<char>, i: int) -> Option<int>
    decreases t.len() - i,
{
    if i < 0 || i >= t.len() {
        None
    } else if t[i].0 == e {
        Some(i)
    } else {
        key_pos_from(t, e, i + 1)
    }
}

/// A position found by [`key_pos_from`] holds the key.
pub proof fn lemma_key_pos_from(t: Seq<(Seq<char>, nat)>, e: Seq<char>, i: int)
    requires
        0 <= i,
    ensures
        key_pos_from(t, e, i) matches Some(j) ==> 0 <= i <= j < t.len() && t[j].0 == e,
        key_pos_from(t, e, i) is None ==> forall|k: int| i <= k < t.len() ==> (#[trigger] t[k]).0 != e,
    decreases t.len() - i,
{
    if 0 <= i < t.len() && t[i].0 != e {
        lemma_key_pos_from(t, e, i + 1);
    }
}

/// How often each extension occurs, in the order of first occurrence.
pub open spec fn tally(exts: Seq<Seq<char>>) -> Seq<(Seq<char>, nat)>
    decreases exts.len(),
{
    if exts.len() == 0 {
        seq![]
    } else {
        let t = tally(exts.drop_last());
        let e = exts.last();
        match key_pos_from(t, e, 0) {
            Some(i) => t.update(i, (e, t[i].1 + 1)),
            None => t.push((e, 1)),
        }
    }
}

/// The index of the first largest count at or after `i`, `best` being the
/// best one before `i`.
pub open spec fn max_index_from(t: Seq<(Seq<char>, nat)>, i: int, best: int) -> int
    decreases t.len() - i,
{
    if i < 0 || i >= t.len() {
        best
    } else if t[i].1 > t[best].1 {
        max_index_from(t, i + 1, i)
    } else {
        max_index_from(t, i + 1, best)
    }
}

/// [`max_index_from`] stays in range and finds a count no smaller than
/// any it passes.
pub proof fn lemma_max_index_from(t: Seq<(Seq<char>, nat)>, i: int, best: int)
    requires
        0 <= best < t.len(),
        0 <= i,
    ensures
        0 <= max_index_from(t, i, best) < t.len(),
        t[best].1 <= t[max_index_from(t, i, best)].1,
        forall|k: int| i <= k < t.len() ==> (#[trigger] t[k]).1 <= t[max_index_from(t, i, best)].1,
    decreases t.len() - i,
{
    if i < t.len() {
        if t[i].1 > t[best].1 {
            lemma_max_index_from(t, i + 1, i);
        } else {
            lemma_max_index_from(t, i + 1, best);
        }
    }
}

/// The counts in descending order; equal counts keep their order.
pub open spec fn order_desc(t: Seq<(Seq<char>, nat)>) -> Seq<(Seq<char>, nat)>
    decreases t.len(),
{
    if t.len() == 0 {
        seq![]
    } else {
        let m = max_index_from(t, 1, 0);
        proof {
            lemma_max_index_from(t, 1, 0);
        }
        seq![t[m]] + order_desc(t.remove(m))
    }
}

/// The extensions of the given file names, most frequent first.
pub open spec fn ext_order(names: Seq<Seq<char>>) -> Seq<(Seq<char>, nat)> {
    order_desc(tally(names.map_values(|n: Seq<char>| extension(n))))
}

/// How many extensions the summary names: at most five.
pub open spec fn shown_count(n: nat) -> nat {
    if n > 5 {
        5
    } else {
        n
    }
}

/// "<count> <extension>".
pub open spec fn ext_item(e: (Seq<char>, nat)) -> Seq<char> {
    dec(e.1) + seq![' '] + e.0
}

/// The items of a sequence of counts.
pub open spec fn ext_items(order: Seq<(Seq<char>, nat)>) -> Seq<Seq<char>> {
    order.map_values(|e: (Seq<char>, nat)| ext_item(e))
}

/// " (<top five items>[, +<rest> more])", or nothing without files.
pub open spec fn ext_clause(order: Seq<(Seq<char>, nat)>) -> Seq<char> {
    if order.len() == 0 {
        seq![]
    } else {
        " ("@ + join(ext_items(order.take(shown_count(order.len()) as int)), ", "@) + (if order.len()
            > 5 {
            ", +"@ + dec((order.len() - 5) as nat) + " more"@
        } else {
            seq![]
        }) + ")"@
    }
}

/// The summary line, with a blank line before it.
pub open spec fn summary_text(nfiles: nat, ndirs: nat, order: Seq<(Seq<char>, nat)>) -> Seq<
    char,
> {
    "\nSummary: "@ + dec(nfiles) + " files, "@ + dec(ndirs) + " dirs"@ + ext_clause(order) + "\n"@
}

/// One "<dir>/" line per directory.
pub open spec fn dir_block(dirs: Seq<Seq<char>>) -> Seq<char>
    decreases dirs.len(),
{
    if dirs.len() == 0 {
        seq![]
    } else {
        dir_block(dirs.drop_last()) + dirs.last() + "/\n"@
    }
}

/// One "<name>  <human size>" line per file.
pub open spec fn file_block(files: Seq<(Seq<char>, u64)>) -> Seq<char>
    decreases files.len(),
{
    if files.len() == 0 {
        seq![]
    } else {
        file_block(files.drop_last()) + files.last().0 + "  "@ + human_size_text(
            files.last().1 as nat,
        ) + "\n"@
    }
}

/// The names of a sequence of files.
pub open spec fn file_names(files: Seq<(Seq<char>, u64)>) -> Seq<Seq<char>> {
    files.map_values(|f: (Seq<char>, u64)| f.0)
}

/// What `compact_ls` returns for `ls -la` output `raw`: the entries text
/// and the summary text; "(empty)\n" and no summary when nothing is listed.
pub open spec fn compact_listing(raw: Seq<char>, show_all: bool) -> (Seq<char>, Seq<char>) {
    let (dirs, files) = listing(lines(raw), show_all);
    if dirs.len() == 0 && files.len() == 0 {
        ("(empty)\n"@, seq![])
    } else {
        (
            dir_block(dirs) + file_block(files),
            summary_text(files.len(), dirs.len(), ext_order(file_names(files))),
        )
    }
}

/// Extension-and-count pairs from two parallel sequences.
pub open spec fn count_pairs(keys: Seq<Seq<char>>, counts: Seq<usize>) -> Seq<(Seq<char>, nat)> {
    Seq::new(keys.len(), |i: int| (keys[i], counts[i] as nat))
}

/// The extension of a file name (see [`extension`]).
pub fn extension_of(name: &Vec<char>) -> (r: Vec<char>)
    ensures
        r@ == extension(name@),
{
    match last_index(name, '.') {
        Some(i) => {
            let mut out: Vec<char> = Vec::new();
            let mut j: usize = i;
            while j < name.len()
                invariant
                    i <= j <= name.len(),
                    out@ == name@.subrange(i as int, j as int),
                decreases name.len() - j,
            {
                out.push(name[j]);
                j = j + 1;
                assert(out@ =~= name@.subrange(i as int, j as int));
            }
            out
        },
        None => chars_of("no ext"),
    }
}

fn find_key(keys: &Vec<Vec<char>>, counts: &Vec<usize>, e: &Vec<char>) -> (r: Option<usize>)
    requires
        keys.len() == counts.len(),
    ensures
        r matches Some(i) ==> i < keys.len() && key_pos_from(
            count_pairs(views(keys@), counts@),
            e@,
            0,
        ) == Some(i as int),
        r is None ==> key_pos_from(count_pairs(views(keys@), counts@), e@, 0) is None,
{
    let ghost t = count_pairs(views(keys@), counts@);
    let mut i: usize = 0;
    while i < keys.len()
        invariant
            i <= keys.len() == counts.len(),
            t == count_pairs(views(keys@), counts@),
            key_pos_from(t, e@, 0) == key_pos_from(t, e@, i as int),
        decreases keys.len() - i,
    {
        assert(t[i as int].0 == keys@[i as int]@);
        if eq_chars(&keys[i], e) {
            return Some(i);
        }
        i = i + 1;
    }
    None
}

/// Counts the extensions of the given file names (see [`tally`]).
pub fn tally_extensions(names: &Vec<Vec<char>>) -> (r: (Vec<Vec<char>>, Vec<usize>))
    ensures
        r.0.len() == r.1.len(),
        count_pairs(views(r.0@), r.1@) == tally(
            views(names@).map_values(|n: Seq<char>| extension(n)),
        ),
{
    let ghost exts = views(names@).map_values(|n: Seq<char>| extension(n));
    let mut keys: Vec<Vec<char>> = Vec::new();
    let mut counts: Vec<usize> = Vec::new();
    let mut j: usize = 0;
    while j < names.len()
        invariant
            j <= names.len(),
            keys.len() == counts.len(),
            exts == views(names@).map_values(|n: Seq<char>| extension(n)),
            forall|k: int| 0 <= k < counts.len() ==> counts@[k] <= j,
            count_pairs(views(keys@), counts@) == tally(exts.take(j as int)),
        decreases names.len() - j,
    {
        let e = extension_of(&names[j]);
        let ghost t = count_pairs(views(keys@), counts@);
        assert(exts.take(j + 1).drop_last() == exts.take(j as int));
        assert(exts.take(j + 1).last() == e@);
        let ghost k0 = keys@;
        let ghost c0 = counts@;
        match find_key(&keys, &counts, &e) {
            Some(i) => {
                proof {
                    lemma_key_pos_from(t, e@, 0);
                }
                let c = counts[i];
                counts.set(i, c + 1);
                assert(count_pairs(views(keys@), counts@) =~= t.update(i as int, (e@, t[i as int].1 + 1)));
            },
            None => {
                let ghost ev = e@;
                keys.push(e);
                counts.push(1);
                assert(views(keys@) =~= views(k0).push(ev));
                assert(count_pairs(views(keys@), counts@) =~= t.push((ev, 1)));
            },
        }
        j = j + 1;
    }
    assert(exts.take(names.len() as int) == exts);
    (keys, counts)
}

fn max_count_index(counts: &Vec<usize>, Ghost(t): Ghost<Seq<(Seq<char>, nat)>>) -> (m: usize)
    requires
        counts.len() > 0,
        t.len() == counts.len(),
        forall|k: int| 0 <= k < t.len() ==> t[k].1 == counts@[k],
    ensures
        m < counts.len(),
        m as int == max_index_from(t, 1, 0),
{
    let mut best: usize = 0;
    let mut i: usize = 1;
    while i < counts.len()
        invariant
            1 <= i <= counts.len(),
            best < i,
            t.len() == counts.len(),
            forall|k: int| 0 <= k < t.len() ==> t[k].1 == counts@[k],
            max_index_from(t, 1, 0) == max_index_from(t, i as int, best as int),
        decreases counts.len() - i,
    {
        if counts[i] > counts[best] {
            best = i;
        }
        i = i + 1;
    }
    best
}

/// Orders extension counts by count, largest first (see [`order_desc`]).
pub fn order_by_count(keys: Vec<Vec<char>>, counts: Vec<usize>) -> (r: (Vec<Vec<char>>, Vec<usize>))
    requires
        keys.len() == counts.len(),
    ensures
        r.0.len() == r.1.len(),
        count_pairs(views(r.0@), r.1@) == order_desc(count_pairs(views(keys@), counts@)),
{
    let ghost goal = order_desc(count_pairs(views(keys@), counts@));
    let mut keys = keys;
    let mut counts = counts;
    let mut out_k: Vec<Vec<char>> = Vec::new();
    let mut out_c: Vec<usize> = Vec::new();
    assert(count_pairs(views(out_k@), out_c@) =~= seq![]);
    while keys.len() > 0
        invariant
            keys.len() == counts.len(),
            out_k.len() == out_c.len(),
            count_pairs(views(out_k@), out_c@) + order_desc(count_pairs(views(keys@), counts@))
                == goal,
        decreases keys.len(),
    {
        let ghost t = count_pairs(views(keys@), counts@);
        let ghost ok0 = out_k@;
        let ghost oc0 = out_c@;
        let m = max_count_index(&counts, Ghost(t));
        proof {
            lemma_max_index_from(t, 1, 0);
        }
        let ghost k0 = keys@;
        let ghost c0 = counts@;
        let k = keys.remove(m);
        let c = counts.remove(m);
        let ghost kv = k@;
        out_k.push(k);
        out_c.push(c);
        proof {
            assert(views(keys@) =~= views(k0).remove(m as int));
            assert(count_pairs(views(keys@), counts@) =~= t.remove(m as int));
            assert(views(out_k@) =~= views(ok0).push(kv));
            assert(count_pairs(views(out_k@), out_c@) =~= count_pairs(views(ok0), oc0).push(
                t[m as int],
            ));
            assert(order_desc(t) == seq![t[m as int]] + order_desc(t.remove(m as int)));
            assert(count_pairs(views(out_k@), out_c@) + order_desc(count_pairs(views(keys@), counts@))
                =~= count_pairs(views(ok0), oc0) + order_desc(t));
        }
    }
    assert(count_pairs(views(keys@), counts@) =~= seq![]);
    assert(count_pairs(views(out_k@), out_c@) + seq![] =~= count_pairs(views(out_k@), out_c@));
    (out_k, out_c)
}


/// Appends one "<dir>/" line per directory.
fn push_dir_block(out: &mut Vec<char>, dirs: &Vec<Vec<char>>)
    ensures
        final(out)@ == old(out)@ + dir_block(views(dirs@)),
{
    let ghost start = out@;
    let mut i: usize = 0;
    while i < dirs.len()
        invariant
            i <= dirs.len(),
            out@ == start + dir_block(views(dirs@).take(i as int)),
        decreases dirs.len() - i,
    {
        let ghost prev = views(dirs@).take(i as int);
        let ghost next = views(dirs@).take(i + 1);
        assert(next.drop_last() == prev);
        assert(next.last() == dirs@[i as int]@);
        push_chars(out, &dirs[i]);
        push_str(out, "/\n");
        i = i + 1;
        assert(out@ =~= start + dir_block(next));
    }
    assert(views(dirs@).take(dirs.len() as int) == views(dirs@));
}

/// Appends one "<name>  <human size>" line per file.
fn push_file_block(out: &mut Vec<char>, names: &Vec<Vec<char>>, sizes: &Vec<u64>)
    requires
        names.len() == sizes.len(),
    ensures
        final(out)@ == old(out)@ + file_block(file_pairs(views(names@), sizes@)),
{
    let ghost start = out@;
    let ghost files = file_pairs(views(names@), sizes@);
    let mut i: usize = 0;
    while i < names.len()
        invariant
            i <= names.len() == sizes.len(),
            files == file_pairs(views(names@), sizes@),
            out@ == start + file_block(files.take(i as int)),
        decreases names.len() - i,
    {
        let ghost prev = files.take(i as int);
        let ghost next = files.take(i + 1);
        assert(next.drop_last() == prev);
        assert(next.last() == (names@[i as int]@, sizes@[i as int]));
        push_chars(out, &names[i]);
        push_str(out, "  ");
        push_human_size(out, sizes[i]);
        push_str(out, "\n");
        i = i + 1;
        assert(out@ =~= start + file_block(next));
    }
    assert(files.take(names.len() as int) == files);
}

/// Appends the extension clause of the summary for counts in display order.
fn push_ext_clause(out: &mut Vec<char>, keys: &Vec<Vec<char>>, counts: &Vec<usize>)
    requires
        keys.len() == counts.len(),
    ensures
        final(out)@ == old(out)@ + ext_clause(count_pairs(views(keys@), counts@)),
{
    let ghost order = count_pairs(views(keys@), counts@);
    if keys.len() == 0 {
        assert(final(out)@ =~= old(out)@ + ext_clause(order));
        return;
    }
    let ghost start = out@;
    push_str(out, " (");
    let ghost mid = out@;
    let shown: usize = if keys.len() > 5 { 5 } else { keys.len() };
    let mut j: usize = 0;
    while j < shown
        invariant
            j <= shown <= keys.len() == counts.len(),
            order == count_pairs(views(keys@), counts@),
            out@ == mid + join(ext_items(order.take(j as int)), ", "@),
        decreases shown - j,
    {
        let ghost prev = ext_items(order.take(j as int));
        let ghost next = ext_items(order.take(j + 1));
        assert(next.drop_last() =~= prev);
        assert(next.last() == ext_item((keys@[j as int]@, counts@[j as int] as nat)));
        let ghost before = out@;
        if j > 0 {
            push_str(out, ", ");
        }
        let ghost sep_done = out@;
        push_decimal(out, counts[j] as u64);
        out.push(' ');
        push_chars(out, &keys[j]);
        j = j + 1;
        proof {
            if next.len() == 1 {
                assert(out@ =~= mid + next[0]);
            } else {
                assert(out@ =~= mid + (join(prev, ", "@) + ", "@ + next.last()));
            }
        }
    }
    if keys.len() > 5 {
        push_str(out, ", +");
        push_decimal(out, (keys.len() - 5) as u64);
        push_str(out, " more");
    }
    push_str(out, ")");
    assert(final(out)@ =~= old(out)@ + ext_clause(order));
}

/// Appends the summary text for the given counts in display order.
fn push_summary(
    out: &mut Vec<char>,
    nfiles: usize,
    ndirs: usize,
    keys: &Vec<Vec<char>>,
    counts: &Vec<usize>,
)
    requires
        keys.len() == counts.len(),
    ensures
        final(out)@ == old(out)@ + summary_text(
            nfiles as nat,
            ndirs as nat,
            count_pairs(views(keys@), counts@),
        ),
{
    push_str(out, "\nSummary: ");
    push_decimal(out, nfiles as u64);
    push_str(out, " files, ");
    push_decimal(out, ndirs as u64);
    push_str(out, " dirs");
    push_ext_clause(out, keys, counts);
    push_str(out, "\n");
    assert(final(out)@ =~= old(out)@ + summary_text(
        nfiles as nat,
        ndirs as nat,
        count_pairs(views(keys@), counts@),
    ));
}

/// The summary text for the given directory count and file names.
fn summary_for(nfiles: usize, ndirs: usize, names: &Vec<Vec<char>>) -> (r: Vec<char>)
    ensures
        r@ == summary_text(nfiles as nat, ndirs as nat, ext_order(views(names@))),
{
    let (keys, counts) = tally_extensions(names);
    let (keys, counts) = order_by_count(keys, counts);
    let mut out: Vec<char> = Vec::new();
    push_summary(&mut out, nfiles, ndirs, &keys, &counts);
    assert(out@ =~= summary_text(nfiles as nat, ndirs as nat, ext_order(views(names@))));
    out
}

/// Parses `ls -la` output into a compact listing. Returns the entries and,
/// separately, the summary, so that a caller can leave the summary out when
/// the output is piped. With `show_all` false, noise names such as
/// `node_modules` and `.git` are left out.
pub fn compact_ls(raw: &str, show_all: bool) -> (r: (String, String))
    ensures
        (r.0@, r.1@) == compact_listing(raw@, show_all),
{
    let chars = chars_of(raw);
    let ls = split_lines(&chars);
    let (dirs, names, sizes) = collect_entries(&ls, show_all);
    let ghost files = file_pairs(views(names@), sizes@);
    if dirs.len() == 0 && names.len() == 0 {
        let e = chars_of("(empty)\n");
        let none: Vec<char> = Vec::new();
        return (string_of(&e), string_of(&none));
    }
    let mut entries: Vec<char> = Vec::new();
    push_dir_block(&mut entries, &dirs);
    push_file_block(&mut entries, &names, &sizes);
    assert(entries@ =~= dir_block(views(dirs@)) + file_block(files));
    assert(file_names(files) =~= views(names@));
    let summary = summary_for(names.len(), dirs.len(), &names);
    (string_of(&entries), string_of(&summary))
}


/// A directory line of the long native listing.
pub open spec fn long_dir_line(d: Seq<char>) -> Seq<char> {
    "d---------  "@ + pad_left("0"@, 8) + " "@ + d + "/\n"@
}

/// The directory lines of a native listing.
pub open spec fn native_dir_block(dirs: Seq<Seq<char>>, long_format: bool) -> Seq<char>
    decreases dirs.len(),
{
    if dirs.len() == 0 {
        seq![]
    } else {
        native_dir_block(dirs.drop_last(), long_format) + if long_format {
            long_dir_line(dirs.last())
        } else {
            dirs.last() + "/\n"@
        }
    }
}

/// A file line of a native listing: its long-format line where there is
/// one, else "<name>  <size>" with the size human-readable or in bytes.
pub open spec fn native_file_line(
    f: (Seq<char>, u64, Seq<char>),
    human_readable: bool,
    long_format: bool,
) -> Seq<char> {
    if long_format && f.2.len() > 0 {
        f.2 + "\n"@
    } else {
        f.0 + "  "@ + (if human_readable {
            human_size_text(f.1 as nat)
        } else {
            dec(f.1 as nat)
        }) + "\n"@
    }
}

/// The file lines of a native listing.
pub open spec fn native_file_block(
    files: Seq<(Seq<char>, u64, Seq<char>)>,
    human_readable: bool,
    long_format: bool,
) -> Seq<char>
    decreases files.len(),
{
    if files.len() == 0 {
        seq![]
    } else {
        native_file_block(files.drop_last(), human_readable, long_format) + native_file_line(
            files.last(),
            human_readable,
            long_format,
        )
    }
}

/// The views of native file records (name, size, long-format line).
pub open spec fn native_files(files: Seq<(String, u64, String)>) -> Seq<(Seq<char>, u64, Seq<char>)> {
    files.map_values(|f: (String, u64, String)| (f.0@, f.1, f.2@))
}

/// What `format_compact_output` returns: the entries and the summary of
/// a native listing; "(empty)\n" and no summary when it is empty.
pub open spec fn native_listing(
    dirs: Seq<Seq<char>>,
    files: Seq<(Seq<char>, u64, Seq<char>)>,
    human_readable: bool,
    long_format: bool,
) -> (Seq<char>, Seq<char>) {
    if dirs.len() == 0 && files.len() == 0 {
        ("(empty)\n"@, seq![])
    } else {
        (
            native_dir_block(dirs, long_format) + native_file_block(
                files,
                human_readable,
                long_format,
            ),
            summary_text(
                files.len(),
                dirs.len(),
                ext_order(files.map_values(|f: (Seq<char>, u64, Seq<char>)| f.0)),
            ),
        )
    }
}

/// Appends `s` padded on the left to `width` characters.
pub fn push_padded(out: &mut Vec<char>, s: &Vec<char>, width: usize)
    ensures
        final(out)@ == old(out)@ + pad_left(s@, width as nat),
{
    let ghost start = out@;
    if s.len() < width {
        let fill = width - s.len();
        let mut k: usize = 0;
        while k < fill
            invariant
                k <= fill,
                out@ == start + Seq::new(k as nat, |i: int| ' '),
            decreases fill - k,
        {
            out.push(' ');
            k = k + 1;
            assert(out@ =~= start + Seq::new(k as nat, |i: int| ' '));
        }
    }
    push_chars(out, s);
    assert(final(out)@ =~= old(out)@ + pad_left(s@, width as nat));
}

/// Renders a natively read listing: directories (names), then files
/// (name, size in bytes, long-format line or empty), then the summary.
pub fn format_compact_output(
    dirs: &[String],
    files: &[(String, u64, String)],
    _show_all: bool,
    human_readable: bool,
    long_format: bool,
) -> (r: (String, String))
    ensures
        (r.0@, r.1@) == native_listing(
            string_views(dirs@),
            native_files(files@),
            human_readable,
            long_format,
        ),
{
    let ghost dv = string_views(dirs@);
    let ghost fv = native_files(files@);
    if dirs.len() == 0 && files.len() == 0 {
        let e = chars_of("(empty)\n");
        let none: Vec<char> = Vec::new();
        return (string_of(&e), string_of(&none));
    }
    let mut entries: Vec<char> = Vec::new();
    let mut i: usize = 0;
    while i < dirs.len()
        invariant
            i <= dirs.len(),
            dv == string_views(dirs@),
            entries@ == native_dir_block(dv.take(i as int), long_format),
        decreases dirs.len() - i,
    {
        let ghost before = entries@;
        let ghost next = dv.take(i + 1);
        assert(next.drop_last() == dv.take(i as int));
        assert(next.last() == dirs@[i as int]@);
        if long_format {
            push_str(&mut entries, "d---------  ");
            let zero = chars_of("0");
            push_padded(&mut entries, &zero, 8);
            push_str(&mut entries, " ");
        }
        push_str(&mut entries, dirs[i].as_str());
        push_str(&mut entries, "/\n");
        i = i + 1;
        assert(entries@ =~= native_dir_block(next, long_format));
    }
    assert(dv.take(dirs.len() as int) == dv);
    let ghost dir_text = entries@;
    let mut names: Vec<Vec<char>> = Vec::new();
    let mut j: usize = 0;
    while j < files.len()
        invariant
            j <= files.len(),
            fv == native_files(files@),
            names.len() == j,
            forall|k: int| 0 <= k < j ==> #[trigger] names@[k]@ == fv[k].0,
            entries@ == dir_text + native_file_block(fv.take(j as int), human_readable, long_format),
        decreases files.len() - j,
    {
        let ghost next = fv.take(j + 1);
        assert(next.drop_last() == fv.take(j as int));
        let f = &files[j];
        assert(next.last() == (f.0@, f.1, f.2@));
        let ghost before = entries@;
        if long_format && !f.2.as_str().is_empty() {
            push_str(&mut entries, f.2.as_str());
            push_str(&mut entries, "\n");
        } else {
            push_str(&mut entries, f.0.as_str());
            push_str(&mut entries, "  ");
            if human_readable {
                push_human_size(&mut entries, f.1);
            } else {
                push_decimal(&mut entries, f.1);
            }
            push_str(&mut entries, "\n");
        }
        assert(entries@ =~= before + native_file_line(next.last(), human_readable, long_format));
        names.push(chars_of(f.0.as_str()));
        j = j + 1;
        assert(entries@ =~= dir_text + native_file_block(next, human_readable, long_format));
    }
    assert(fv.take(files.len() as int) == fv);
    assert(views(names@) =~= fv.map_values(|f: (Seq<char>, u64, Seq<char>)| f.0));
    let summary = summary_for(files.len(), dirs.len(), &names);
    (string_of(&entries), string_of(&summary))
}

} // verus!
