//! Properties of the library as a whole, proved over the specifications
//! that the functions' contracts use.

use vstd::prelude::*;
use crate::text::{all_digits, dec, digit, digits_value, is_digit, lines, parse_u64, unsigned_body};
use crate::size::{
    as_f64_value, human_size_text, round_half_even_div, rounding_unit, tenths, KIB, MIB,
};
use crate::invocation::{flag_args, flag_part, ls_command, other_letters, path_part};
use crate::text::{last_index_of, starts_with_char};
use crate::listing::{
    compact_listing, ext_order, is_noise, key_pos_from, lemma_key_pos_from,
    lemma_max_index_from, line_entry, listing, max_index_from, order_desc, tally,
};

verus! {

/// The digit for `d` is the character `'0' + d`.
pub proof fn lemma_digit(d: nat)
    requires
        d < 10,
    ensures
        digit(d) as int == d + 48,
        is_digit(digit(d)),
        digit(d) != '+',
{
}

/// Decimal notation is made of digits, is never empty, and its value is
/// the number written.
pub proof fn lemma_dec_digits(n: nat)
    ensures
        dec(n).len() > 0,
        all_digits(dec(n)),
        digits_value(dec(n)) == n,
        dec(n)[0] != '+',
    decreases n,
{
    if n >= 10 {
        lemma_dec_digits(n / 10);
        let s = dec(n / 10);
        let d = (n % 10) as nat;
        assert(dec(n) == s.push(digit(d)));
        assert(dec(n).drop_last() == s);
        lemma_digit(d);
        assert(digits_value(dec(n)) == digits_value(s) * 10 + ((dec(n).last() as int - 48) as nat));
        assert(dec(n).last() == digit(d));
        assert(n == (n / 10) * 10 + d);
        assert(forall|i: int| 0 <= i < dec(n).len() ==> is_digit(#[trigger] dec(n)[i])) by {
            assert forall|i: int| 0 <= i < dec(n).len() implies is_digit(#[trigger] dec(n)[i]) by {
                if i < s.len() {
                    assert(dec(n)[i] == s[i]);
                }
            }
        }
    } else {
        lemma_digit(n);
        assert(dec(n).drop_last() =~= seq![]);
        assert(digits_value(dec(n)) == digits_value(dec(n).drop_last()) * 10 + ((dec(n).last() as int - 48) as nat));
    }
}

/// Parsing undoes formatting: reading back the decimal notation of any
/// `u64` gives that number.
pub proof fn lemma_decimal_round_trip(n: u64)
    ensures
        parse_u64(dec(n as nat)) == Some(n),
{
    lemma_dec_digits(n as nat);
    assert(unsigned_body(dec(n as nat)) == dec(n as nat));
}


/// Hiding noise decides nothing else about a line: without `show_all` a
/// line gives what it gives with it, unless its name is a noise name.
pub proof fn lemma_line_entry_hiding(line: Seq<char>)
    ensures
        line_entry(line, false) == match line_entry(line, true) {
            Some((d, n, s)) => if is_noise(n) {
                None
            } else {
                Some((d, n, s))
            },
            None => None,
        },
{
}

/// Leaving out `-a` only removes entries with noise names: the listing
/// without it is the listing with it, noise names filtered out, in the
/// same order.
pub proof fn lemma_hiding_only_drops_noise(ls: Seq<Seq<char>>)
    ensures
        listing(ls, false).0 == listing(ls, true).0.filter(|n: Seq<char>| !is_noise(n)),
        listing(ls, false).1 == listing(ls, true).1.filter(|f: (Seq<char>, u64)| !is_noise(f.0)),
    decreases ls.len(),
{
    reveal(Seq::filter);
    if ls.len() > 0 {
        lemma_hiding_only_drops_noise(ls.drop_last());
        lemma_line_entry_hiding(ls.last());
        let (d1, f1) = listing(ls.drop_last(), true);
        match line_entry(ls.last(), true) {
            Some((is_dir, n, sz)) => {
                if is_dir {
                    assert(d1.push(n).drop_last() == d1);
                    assert(d1.push(n).last() == n);
                } else {
                    assert(f1.push((n, sz)).drop_last() == f1);
                    assert(f1.push((n, sz)).last() == (n, sz));
                }
            },
            None => {},
        }
    }
}

/// Without `-a`, no listed directory or file has a noise name.
pub proof fn lemma_hidden_listing_has_no_noise(ls: Seq<Seq<char>>)
    ensures
        forall|i: int|
            0 <= i < listing(ls, false).0.len() ==> !is_noise(#[trigger] listing(ls, false).0[i]),
        forall|i: int|
            0 <= i < listing(ls, false).1.len() ==> !is_noise(#[trigger] listing(ls, false).1[i].0),
    decreases ls.len(),
{
    if ls.len() > 0 {
        lemma_hidden_listing_has_no_noise(ls.drop_last());
        let (d, f) = listing(ls.drop_last(), false);
        assert forall|i: int| 0 <= i < listing(ls, false).0.len() implies !is_noise(
            #[trigger] listing(ls, false).0[i],
        ) by {
            if i < d.len() {
                assert(listing(ls, false).0[i] == d[i]);
            }
        }
        assert forall|i: int| 0 <= i < listing(ls, false).1.len() implies !is_noise(
            #[trigger] listing(ls, false).1[i].0,
        ) by {
            if i < f.len() {
                assert(listing(ls, false).1[i] == f[i]);
            }
        }
    }
}

/// A summary is shown exactly when something is listed; when nothing is,
/// the entries read "(empty)".
pub proof fn lemma_summary_iff_listed(raw: Seq<char>, show_all: bool)
    ensures
        (compact_listing(raw, show_all).1.len() == 0) == (listing(lines(raw), show_all).0.len() == 0
            && listing(lines(raw), show_all).1.len() == 0),
        compact_listing(raw, show_all).1.len() == 0 ==> compact_listing(raw, show_all).0
            == "(empty)\n"@,
{
    reveal_strlit("\n");
}

/// Every item of the descending order is an item of the counts, and
/// there are as many.
pub proof fn lemma_order_desc_members(t: Seq<(Seq<char>, nat)>)
    ensures
        order_desc(t).len() == t.len(),
        forall|j: int|
            0 <= j < order_desc(t).len() ==> exists|k: int|
                0 <= k < t.len() && #[trigger] order_desc(t)[j] == t[k],
    decreases t.len(),
{
    if t.len() > 0 {
        let m = max_index_from(t, 1, 0);
        lemma_max_index_from(t, 1, 0);
        let r = t.remove(m);
        lemma_order_desc_members(r);
        let o = order_desc(t);
        assert(o == seq![t[m]] + order_desc(r));
        assert forall|j: int| 0 <= j < o.len() implies exists|k: int|
            0 <= k < t.len() && #[trigger] o[j] == t[k] by {
            if j == 0 {
                assert(o[0] == t[m]);
            } else {
                assert(o[j] == order_desc(r)[j - 1]);
                let k2 = choose|k: int| 0 <= k < r.len() && order_desc(r)[j - 1] == r[k];
                if k2 < m {
                    assert(r[k2] == t[k2]);
                } else {
                    assert(r[k2] == t[k2 + 1]);
                }
            }
        }
    }
}

/// The extensions in the summary come most frequent first: the counts
/// never increase along the order.
pub proof fn lemma_order_desc_sorted(t: Seq<(Seq<char>, nat)>)
    ensures
        forall|i: int, j: int|
            0 <= i < j < order_desc(t).len() ==> (#[trigger] order_desc(t)[i]).1 >= (
            #[trigger] order_desc(t)[j]).1,
    decreases t.len(),
{
    if t.len() > 0 {
        let m = max_index_from(t, 1, 0);
        lemma_max_index_from(t, 1, 0);
        let r = t.remove(m);
        lemma_order_desc_sorted(r);
        lemma_order_desc_members(r);
        let o = order_desc(t);
        assert(o == seq![t[m]] + order_desc(r));
        assert forall|i: int, j: int| 0 <= i < j < o.len() implies (#[trigger] o[i]).1 >= (
        #[trigger] o[j]).1 by {
            assert(o[j] == order_desc(r)[j - 1]);
            if i == 0 {
                let k2 = choose|k: int| 0 <= k < r.len() && order_desc(r)[j - 1] == r[k];
                if k2 < m {
                    assert(r[k2] == t[k2]);
                    if k2 >= 1 {
                        assert(t[k2].1 <= t[m].1);
                    }
                } else {
                    assert(r[k2] == t[k2 + 1]);
                    assert(t[k2 + 1].1 <= t[m].1);
                }
            } else {
                assert(o[i] == order_desc(r)[i - 1]);
            }
        }
    }
}

/// The sum of the counts.
pub open spec fn total_count(t: Seq<(Seq<char>, nat)>) -> nat
    decreases t.len(),
{
    if t.len() == 0 {
        0
    } else {
        total_count(t.drop_last()) + t.last().1
    }
}

proof fn lemma_total_update(t: Seq<(Seq<char>, nat)>, i: int, v: (Seq<char>, nat))
    requires
        0 <= i < t.len(),
    ensures
        total_count(t.update(i, v)) + t[i].1 == total_count(t) + v.1,
    decreases t.len(),
{
    if i == t.len() - 1 {
        assert(t.update(i, v).drop_last() == t.drop_last());
    } else {
        lemma_total_update(t.drop_last(), i, v);
        assert(t.update(i, v).drop_last() == t.drop_last().update(i, v));
    }
}

proof fn lemma_total_remove(t: Seq<(Seq<char>, nat)>, i: int)
    requires
        0 <= i < t.len(),
    ensures
        total_count(t) == total_count(t.remove(i)) + t[i].1,
    decreases t.len(),
{
    if i == t.len() - 1 {
        assert(t.remove(i) == t.drop_last());
    } else {
        lemma_total_remove(t.drop_last(), i);
        assert(t.remove(i).drop_last() == t.drop_last().remove(i));
        assert(t.remove(i).last() == t.last());
    }
}

proof fn lemma_total_prepend(x: (Seq<char>, nat), r: Seq<(Seq<char>, nat)>)
    ensures
        total_count(seq![x] + r) == x.1 + total_count(r),
    decreases r.len(),
{
    if r.len() > 0 {
        lemma_total_prepend(x, r.drop_last());
        assert((seq![x] + r).drop_last() == seq![x] + r.drop_last());
        assert((seq![x] + r).last() == r.last());
    } else {
        assert((seq![x] + r).drop_last() == Seq::<(Seq<char>, nat)>::empty());
        assert((seq![x] + r).last() == x);
        assert(total_count(Seq::<(Seq<char>, nat)>::empty()) == 0);
    }
}

/// Ordering keeps the counts: their sum stays the same.
pub proof fn lemma_order_desc_total(t: Seq<(Seq<char>, nat)>)
    ensures
        total_count(order_desc(t)) == total_count(t),
    decreases t.len(),
{
    if t.len() > 0 {
        let m = max_index_from(t, 1, 0);
        lemma_max_index_from(t, 1, 0);
        lemma_order_desc_total(t.remove(m));
        lemma_total_remove(t, m);
        lemma_total_prepend(t[m], order_desc(t.remove(m)));
    }
}

/// Counting extensions counts each one once: the counts add up to the
/// number of names, each extension has one entry, and every extension
/// has one.
pub proof fn lemma_tally(exts: Seq<Seq<char>>)
    ensures
        total_count(tally(exts)) == exts.len(),
        forall|i: int, j: int|
            0 <= i < j < tally(exts).len() ==> (#[trigger] tally(exts)[i]).0 != (
            #[trigger] tally(exts)[j]).0,
        forall|k: int|
            #![trigger exts[k]]
            0 <= k < exts.len() ==> exists|i: int|
                0 <= i < tally(exts).len() && (#[trigger] tally(exts)[i]).0 == exts[k],
    decreases exts.len(),
{
    if exts.len() > 0 {
        let prev = exts.drop_last();
        lemma_tally(prev);
        let t = tally(prev);
        let e = exts.last();
        lemma_key_pos_from(t, e, 0);
        let n = tally(exts);
        match key_pos_from(t, e, 0) {
            Some(i) => {
                lemma_total_update(t, i, (e, t[i].1 + 1));
                assert forall|k: int| #![trigger exts[k]] 0 <= k < exts.len() implies exists|i2: int|
                    0 <= i2 < n.len() && (#[trigger] n[i2]).0 == exts[k] by {
                    if k < prev.len() {
                        assert(exts[k] == prev[k]);
                        let i2 = choose|i2: int| 0 <= i2 < t.len() && (#[trigger] t[i2]).0 == prev[k];
                        assert(n[i2].0 == t[i2].0);
                    } else {
                        assert(n[i].0 == e);
                    }
                }
                assert forall|a: int, b: int| 0 <= a < b < n.len() implies (#[trigger] n[a]).0 != (
                #[trigger] n[b]).0 by {
                    assert(n[a].0 == t[a].0);
                    assert(n[b].0 == t[b].0);
                }
            },
            None => {
                assert(n == t.push((e, 1nat)));
                assert(n.drop_last() == t);
                assert forall|k: int| #![trigger exts[k]] 0 <= k < exts.len() implies exists|i2: int|
                    0 <= i2 < n.len() && (#[trigger] n[i2]).0 == exts[k] by {
                    if k < prev.len() {
                        assert(exts[k] == prev[k]);
                        let i2 = choose|i2: int| 0 <= i2 < t.len() && (#[trigger] t[i2]).0 == prev[k];
                        assert(n[i2] == t[i2]);
                    } else {
                        assert(n[t.len() as int].0 == e);
                    }
                }
                assert forall|a: int, b: int| 0 <= a < b < n.len() implies (#[trigger] n[a]).0 != (
                #[trigger] n[b]).0 by {
                    assert(n[a] == t[a]);
                    if b < t.len() {
                        assert(n[b] == t[b]);
                    }
                }
            },
        }
    }
}

/// The per-extension counts of the summary add up to the number of files.
pub proof fn lemma_extension_counts_add_up(names: Seq<Seq<char>>)
    ensures
        total_count(ext_order(names)) == names.len(),
{
    let exts = names.map_values(|n: Seq<char>| crate::listing::extension(n));
    lemma_tally(exts);
    lemma_order_desc_total(tally(exts));
}


/// Sizes are shown in bytes below 1024, in KiB below 1048576, and in MiB
/// from there on.
pub proof fn lemma_human_size_unit(b: u64)
    ensures
        human_size_text(b as nat).last() == (if b < 1024 {
            'B'
        } else if b < 1048576 {
            'K'
        } else {
            'M'
        }),
{
}

/// Rounding a quotient to an integer, ties to even, lands within half a
/// unit of the exact quotient.
pub proof fn lemma_round_half_even_div(n: nat, d: nat)
    requires
        d > 0,
    ensures
        2 * round_half_even_div(n, d) * d <= 2 * n + d,
        2 * n <= 2 * round_half_even_div(n, d) * d + d,
{
    let q = n / d;
    let r = n % d;
    vstd::arithmetic::div_mod::lemma_fundamental_div_mod(n as int, d as int);
    let k = round_half_even_div(n, d);
    if k == q + 1 {
        assert(2 * r >= d);
        assert(2 * k * d == 2 * (q * d) + 2 * d) by (nonlinear_arith)
            requires
                k == q + 1,
        ;
        assert(q * d == d * q) by (nonlinear_arith);
    } else {
        assert(2 * r <= d);
        assert(2 * k * d == 2 * (q * d)) by (nonlinear_arith)
            requires
                k == q,
        ;
        assert(q * d == d * q) by (nonlinear_arith);
    }
}

/// Below 2^53 the conversion to `f64` is exact.
pub proof fn lemma_exact_below_2_53(b: nat)
    requires
        b < 0x20_0000_0000_0000,
    ensures
        as_f64_value(b) == b,
{
    assert(rounding_unit(b) == 1);
    assert(b / 1 == b && b % 1 == 0) by (nonlinear_arith);
}

/// For sizes of at least 1024 bytes (and below 2^53, where the `f64`
/// conversion is exact), the one decimal shown is the nearest tenth of
/// the size in its unit.
pub proof fn lemma_human_size_nearest_tenth(b: u64)
    requires
        KIB <= b < 0x20_0000_0000_0000,
    ensures
        ({
            let unit: nat = if b >= MIB {
                MIB as nat
            } else {
                KIB as nat
            };
            &&& 2 * tenths(b as nat) * unit <= 20 * b + unit
            &&& 20 * b <= 2 * tenths(b as nat) * unit + unit
        }),
{
    lemma_exact_below_2_53(b as nat);
    if b >= MIB {
        lemma_round_half_even_div((b * 10) as nat, MIB as nat);
    } else {
        lemma_round_half_even_div((b * 10) as nat, KIB as nat);
    }
}

/// The letters that [`other_letters`] keeps are none of `l`, `a`, `h`.
pub proof fn lemma_other_letters(s: Seq<char>)
    ensures
        forall|i: int|
            0 <= i < other_letters(s).len() ==> #[trigger] other_letters(s)[i] != 'a' && other_letters(
                s,
            )[i] != 'l' && other_letters(s)[i] != 'h',
    decreases s.len(),
{
    if s.len() > 0 {
        lemma_other_letters(s.drop_last());
        let p = other_letters(s.drop_last());
        let c = s.last();
        let add = if c == 'l' || c == 'a' || c == 'h' {
            Seq::<char>::empty()
        } else {
            seq![c]
        };
        assert(other_letters(s) == p + add);
        assert forall|i: int| 0 <= i < other_letters(s).len() implies #[trigger] other_letters(s)[i]
            != 'a' && other_letters(s)[i] != 'l' && other_letters(s)[i] != 'h' by {
            if i < p.len() {
                assert(other_letters(s)[i] == p[i]);
            } else {
                assert(other_letters(s)[i] == add[i - p.len()]);
            }
        }
    }
}

proof fn lemma_flag_args_not_all(a: Seq<char>)
    ensures
        forall|i: int| 0 <= i < flag_args(a).len() ==> #[trigger] flag_args(a)[i] != "--all"@,
{
    reveal_strlit("--all");
    if !crate::text::has_prefix(a, "--"@) {
        let extra = other_letters(crate::invocation::trim_dashes(a));
        lemma_other_letters(crate::invocation::trim_dashes(a));
        if extra.len() > 0 {
            let f = seq!['-'] + extra;
            assert(flag_args(a) == seq![f]);
            if f == "--all"@ {
                assert(f.len() == 5);
                assert(f[2] == extra[1]);
                assert(f[2] == 'a');
                assert(false);
            }
        }
    }
}

proof fn lemma_flag_part_not_all(args: Seq<Seq<char>>)
    ensures
        forall|i: int| 0 <= i < flag_part(args).len() ==> #[trigger] flag_part(args)[i] != "--all"@,
    decreases args.len(),
{
    if args.len() > 0 {
        lemma_flag_part_not_all(args.drop_last());
        lemma_flag_args_not_all(args.last());
        let p = flag_part(args.drop_last());
        let extra = if starts_with_char(args.last(), '-') {
            flag_args(args.last())
        } else {
            seq![]
        };
        assert(flag_part(args) == p + extra);
        assert forall|i: int| 0 <= i < flag_part(args).len() implies #[trigger] flag_part(args)[i]
            != "--all"@ by {
            if i < p.len() {
                assert(flag_part(args)[i] == p[i]);
            } else {
                assert(flag_part(args)[i] == extra[i - p.len()]);
            }
        }
    }
}

/// The arguments kept as paths never start with a dash.
pub proof fn lemma_paths_have_no_dash(args: Seq<Seq<char>>)
    ensures
        forall|i: int|
            0 <= i < path_part(args).len() ==> !starts_with_char(#[trigger] path_part(args)[i], '-'),
    decreases args.len(),
{
    if args.len() > 0 {
        lemma_paths_have_no_dash(args.drop_last());
        let p = path_part(args.drop_last());
        assert forall|i: int| 0 <= i < path_part(args).len() implies !starts_with_char(
            #[trigger] path_part(args)[i],
            '-',
        ) by {
            if i < p.len() {
                assert(path_part(args)[i] == p[i]);
            }
        }
    }
}

/// The `ls` command always lists long and hidden entries ("-la" first),
/// always names something to list, and never passes "--all" on.
pub proof fn lemma_command_shape(args: Seq<Seq<char>>)
    ensures
        ls_command(args).len() >= 2,
        ls_command(args)[0] == "-la"@,
        forall|i: int| 0 <= i < ls_command(args).len() ==> #[trigger] ls_command(args)[i] != "--all"@,
{
    reveal_strlit("--all");
    reveal_strlit("-la");
    reveal_strlit(".");
    lemma_flag_part_not_all(args);
    lemma_paths_have_no_dash(args);
    let f = flag_part(args);
    let tail = if path_part(args).len() == 0 {
        seq!["."@]
    } else {
        path_part(args)
    };
    let c = ls_command(args);
    assert(c == seq!["-la"@] + f + tail);
    assert forall|i: int| 0 <= i < c.len() implies #[trigger] c[i] != "--all"@ by {
        if i == 0 {
            assert(c[0] == "-la"@);
            assert("-la"@.len() != "--all"@.len());
        } else if i < 1 + f.len() {
            assert(c[i] == f[i - 1]);
        } else {
            assert(c[i] == tail[i - 1 - f.len()]);
            if path_part(args).len() == 0 {
                assert("."@.len() != "--all"@.len());
            } else {
                assert(!starts_with_char(path_part(args)[i - 1 - f.len()], '-'));
                assert("--all"@[0] == '-');
            }
        }
    }
}


/// Piped output is the terminal output without the summary: it is always
/// a prefix of it.
pub proof fn lemma_piped_output_is_prefix(entries: Seq<char>, summary: Seq<char>)
    ensures
        crate::invocation::shown_output(entries, summary, true).take(entries.len() as int)
            == crate::invocation::shown_output(entries, summary, false),
{
    assert((entries + summary).take(entries.len() as int) =~= entries);
}


/// No line of `ls -la` output whose name is "." or ".." gives an entry,
/// whatever `show_all` is.
pub proof fn lemma_dot_entries_skipped(line: Seq<char>, show_all: bool)
    ensures
        line_entry(line, show_all) matches Some((d, n, s)) ==> n != "."@ && n != ".."@,
{
}

/// A listing never holds a directory or file named "." or "..".
pub proof fn lemma_listing_has_no_dot_entries(ls: Seq<Seq<char>>, show_all: bool)
    ensures
        forall|i: int|
            0 <= i < listing(ls, show_all).0.len() ==> #[trigger] listing(ls, show_all).0[i] != "."@
                && listing(ls, show_all).0[i] != ".."@,
        forall|i: int|
            0 <= i < listing(ls, show_all).1.len() ==> #[trigger] listing(ls, show_all).1[i].0
                != "."@ && listing(ls, show_all).1[i].0 != ".."@,
    decreases ls.len(),
{
    if ls.len() > 0 {
        lemma_listing_has_no_dot_entries(ls.drop_last(), show_all);
        lemma_dot_entries_skipped(ls.last(), show_all);
        let (d, f) = listing(ls.drop_last(), show_all);
        let (d2, f2) = listing(ls, show_all);
        assert forall|i: int| 0 <= i < d2.len() implies #[trigger] d2[i] != "."@ && d2[i] != ".."@ by {
            if i < d.len() {
                assert(d2[i] == d[i]);
            }
        }
        assert forall|i: int| 0 <= i < f2.len() implies #[trigger] f2[i].0 != "."@ && f2[i].0
            != ".."@ by {
            if i < f.len() {
                assert(f2[i] == f[i]);
            }
        }
    }
}

/// A name is noise only when it equals one of the fixed noise names.
pub proof fn lemma_noise_is_exact_name(n: Seq<char>)
    ensures
        is_noise(n) ==> {
            ||| n == "node_modules"@
            ||| n == ".git"@
            ||| n == "target"@
            ||| n == "__pycache__"@
            ||| n == ".next"@
            ||| n == "dist"@
            ||| n == "build"@
            ||| n == ".cache"@
            ||| n == ".turbo"@
            ||| n == ".vercel"@
            ||| n == ".pytest_cache"@
            ||| n == ".mypy_cache"@
            ||| n == ".tox"@
            ||| n == ".venv"@
            ||| n == "venv"@
            ||| n == "coverage"@
            ||| n == ".nyc_output"@
            ||| n == ".DS_Store"@
            ||| n == "Thumbs.db"@
            ||| n == ".idea"@
            ||| n == ".vscode"@
            ||| n == ".vs"@
            ||| n == "*.egg-info"@
            ||| n == ".eggs"@
        },
{
}

/// Names that merely begin with ".git" (".gitignore", ".github", ...) are
/// not noise; only ".git" itself is.
pub proof fn lemma_git_prefixed_names_are_not_noise(n: Seq<char>)
    requires
        crate::text::has_prefix(n, ".git"@),
        n != ".git"@,
    ensures
        !is_noise(n),
{
    reveal_strlit(".git");
    reveal_strlit("node_modules");
    reveal_strlit("target");
    reveal_strlit("__pycache__");
    reveal_strlit(".next");
    reveal_strlit("dist");
    reveal_strlit("build");
    reveal_strlit(".cache");
    reveal_strlit(".turbo");
    reveal_strlit(".vercel");
    reveal_strlit(".pytest_cache");
    reveal_strlit(".mypy_cache");
    reveal_strlit(".tox");
    reveal_strlit(".venv");
    reveal_strlit("venv");
    reveal_strlit("coverage");
    reveal_strlit(".nyc_output");
    reveal_strlit(".DS_Store");
    reveal_strlit("Thumbs.db");
    reveal_strlit(".idea");
    reveal_strlit(".vscode");
    reveal_strlit(".vs");
    reveal_strlit("*.egg-info");
    reveal_strlit(".eggs");
    assert(n.take(4) == ".git"@);
    assert(n[1] == 'g' && n[2] == 'i' && n[3] == 't') by {
        assert(n.take(4)[1] == n[1] && n.take(4)[2] == n[2] && n.take(4)[3] == n[3]);
    }
}

/// `-a` is asked for exactly when some argument is a short cluster (one
/// leading dash, not two) holding the letter `a`, or is "--all".
pub proof fn lemma_show_all_flags(args: Seq<Seq<char>>)
    ensures
        crate::invocation::show_all_of(args) == exists|i: int|
            0 <= i < args.len() && ({
                let a = #[trigger] args[i];
                ||| (a.len() > 0 && a[0] == '-' && !(a.len() >= 2 && a[1] == '-') && a.contains('a'))
                ||| a == "--all"@
            }),
{
    reveal_strlit("--");
    let p = |a: Seq<char>|
        (a.len() > 0 && a[0] == '-' && !(a.len() >= 2 && a[1] == '-') && a.contains('a')) || a
            == "--all"@;
    assert forall|a: Seq<char>| crate::invocation::asks_option(a, 'a', "--all"@) == p(a) by {
        if a.len() >= 2 && a[0] == '-' && a[1] == '-' {
            assert(a.take(2) =~= "--"@);
        }
        if crate::text::has_prefix(a, "--"@) {
            assert(a.take(2)[0] == a[0] && a.take(2)[1] == a[1]);
        }
    }
    if crate::invocation::show_all_of(args) {
        let i = choose|i: int|
            0 <= i < args.len() && crate::invocation::asks_option(#[trigger] args[i], 'a', "--all"@);
        assert(p(args[i]));
    }
    if exists|i: int| 0 <= i < args.len() && #[trigger] p(args[i]) {
        let i = choose|i: int| 0 <= i < args.len() && #[trigger] p(args[i]);
        assert(crate::invocation::asks_option(args[i], 'a', "--all"@));
    }
}

/// The directory lines hold one "<d>/" line for every directory.
pub proof fn lemma_dir_lines_present(dirs: Seq<Seq<char>>, i: int)
    requires
        0 <= i < dirs.len(),
    ensures
        exists|p: int|
            0 <= p && p + dirs[i].len() + 2 <= crate::listing::native_dir_block(dirs, false).len()
                && #[trigger] crate::listing::native_dir_block(dirs, false).subrange(
                p,
                p + dirs[i].len() + 2,
            ) == dirs[i] + "/\n"@,
        exists|p: int|
            0 <= p && p + dirs[i].len() + 2 <= crate::listing::dir_block(dirs).len()
                && #[trigger] crate::listing::dir_block(dirs).subrange(p, p + dirs[i].len() + 2)
                == dirs[i] + "/\n"@,
    decreases dirs.len(),
{
    reveal_strlit("/\n");
    let prev = dirs.drop_last();
    let b = crate::listing::native_dir_block(dirs, false);
    let pb = crate::listing::native_dir_block(prev, false);
    let c = crate::listing::dir_block(dirs);
    let pc = crate::listing::dir_block(prev);
    assert(b == pb + (dirs.last() + "/\n"@));
    assert(c == pc + dirs.last() + "/\n"@);
    if i == dirs.len() - 1 {
        let p = pb.len() as int;
        assert(b.subrange(p, p + dirs[i].len() + 2) =~= dirs[i] + "/\n"@);
        let q = pc.len() as int;
        assert(c.subrange(q, q + dirs[i].len() + 2) =~= dirs[i] + "/\n"@);
    } else {
        lemma_dir_lines_present(prev, i);
        assert(prev[i] == dirs[i]);
        let p = choose|p: int|
            0 <= p && p + prev[i].len() + 2 <= pb.len() && #[trigger] pb.subrange(
                p,
                p + prev[i].len() + 2,
            ) == prev[i] + "/\n"@;
        assert(b.subrange(p, p + dirs[i].len() + 2) =~= pb.subrange(p, p + dirs[i].len() + 2));
        let q = choose|q: int|
            0 <= q && q + prev[i].len() + 2 <= pc.len() && #[trigger] pc.subrange(
                q,
                q + prev[i].len() + 2,
            ) == prev[i] + "/\n"@;
        assert(c.subrange(q, q + dirs[i].len() + 2) =~= pc.subrange(q, q + dirs[i].len() + 2));
    }
}

/// A native listing reads "(empty)" with no summary when there are
/// neither directories nor files; otherwise the summary is there.
pub proof fn lemma_native_listing_shape(
    dirs: Seq<Seq<char>>,
    files: Seq<(Seq<char>, u64, Seq<char>)>,
    human_readable: bool,
    long_format: bool,
)
    ensures
        dirs.len() == 0 && files.len() == 0 ==> crate::listing::native_listing(
            dirs,
            files,
            human_readable,
            long_format,
        ) == ("(empty)\n"@, Seq::<char>::empty()),
        dirs.len() > 0 || files.len() > 0 ==> crate::listing::native_listing(
            dirs,
            files,
            human_readable,
            long_format,
        ).1.len() > 0,
{
    reveal_strlit("\n");
}

/// In the plain native format every directory has its "<d>/" line in
/// the entries.
pub proof fn lemma_native_dir_line(
    dirs: Seq<Seq<char>>,
    files: Seq<(Seq<char>, u64, Seq<char>)>,
    human_readable: bool,
    i: int,
)
    requires
        0 <= i < dirs.len(),
    ensures
        exists|p: int|
            0 <= p && p + dirs[i].len() + 2 <= crate::listing::native_listing(
                dirs,
                files,
                human_readable,
                false,
            ).0.len() && #[trigger] crate::listing::native_listing(
                dirs,
                files,
                human_readable,
                false,
            ).0.subrange(p, p + dirs[i].len() + 2) == dirs[i] + "/\n"@,
{
    let out = crate::listing::native_listing(dirs, files, human_readable, false).0;
    lemma_dir_lines_present(dirs, i);
    let b = crate::listing::native_dir_block(dirs, false);
    let p = choose|p: int|
        0 <= p && p + dirs[i].len() + 2 <= b.len() && #[trigger] b.subrange(
            p,
            p + dirs[i].len() + 2,
        ) == dirs[i] + "/\n"@;
    assert(out == b + crate::listing::native_file_block(files, human_readable, false));
    assert(out.subrange(p, p + dirs[i].len() + 2) =~= b.subrange(p, p + dirs[i].len() + 2));
}

/// In the compact `ls` listing every listed directory has its "<d>/" line
/// in the entries.
pub proof fn lemma_compact_dirs_present(raw: Seq<char>, show_all: bool, i: int)
    requires
        0 <= i < listing(lines(raw), show_all).0.len(),
    ensures
        ({
            let d = listing(lines(raw), show_all).0[i];
            let out = compact_listing(raw, show_all).0;
            exists|p: int|
                0 <= p && p + d.len() + 2 <= out.len() && #[trigger] out.subrange(
                    p,
                    p + d.len() + 2,
                ) == d + "/\n"@
        }),
{
    let (dirs, files) = listing(lines(raw), show_all);
    lemma_dir_lines_present(dirs, i);
    let b = crate::listing::dir_block(dirs);
    let p = choose|p: int|
        0 <= p && p + dirs[i].len() + 2 <= b.len() && #[trigger] b.subrange(
            p,
            p + dirs[i].len() + 2,
        ) == dirs[i] + "/\n"@;
    let out = compact_listing(raw, show_all).0;
    assert(out == b + crate::listing::file_block(files));
    assert(out.subrange(p, p + dirs[i].len() + 2) =~= b.subrange(p, p + dirs[i].len() + 2));
}

proof fn lemma_last_index_of(s: Seq<char>, c: char)
    ensures
        last_index_of(s, c) matches Some(i) ==> 0 <= i < s.len() && s[i] == c && forall|j: int|
            i < j < s.len() ==> s[j] != c,
        last_index_of(s, c) is None ==> forall|j: int| 0 <= j < s.len() ==> s[j] != c,
    decreases s.len(),
{
    if s.len() > 0 {
        lemma_last_index_of(s.drop_last(), c);
        assert forall|j: int| 0 <= j < s.len() - 1 implies s[j] == s.drop_last()[j] by {}
    }
}

/// The extension the summary counts a file under is the part of its name
/// from its last '.': a suffix of the name that starts with '.' and holds
/// no other '.'. A name without '.' counts as "no ext".
pub proof fn lemma_extension_is_last_dot_suffix(name: Seq<char>)
    ensures
        (exists|i: int| 0 <= i < name.len() && name[i] == '.') ==> {
            let e = crate::listing::extension(name);
            &&& 1 <= e.len() <= name.len()
            &&& e[0] == '.'
            &&& name.skip(name.len() - e.len()) == e
            &&& forall|j: int| 1 <= j < e.len() ==> e[j] != '.'
        },
        (forall|i: int| 0 <= i < name.len() ==> name[i] != '.') ==> crate::listing::extension(name)
            == "no ext"@,
{
    lemma_last_index_of(name, '.');
    if let Some(i) = last_index_of(name, '.') {
        let e = name.skip(i);
        assert(name.skip(name.len() - e.len()) =~= e);
        assert forall|j: int| 1 <= j < e.len() implies e[j] != '.' by {
            assert(e[j] == name[i + j]);
        }
    }
}

} // verus!
