use vstd::prelude::*;

use vstd::set_lib::{lemma_int_range, lemma_len_subset, lemma_map_size, lemma_subset_equality, set_int_range};

use super::passes::{
    columns_from, heights_to, key_rank, kind_before, line_losses, line_target, line_width_of, min_int, share,
    share_loss, share_rank_from, shared_height, shares_from, spare, cut_floor, cut_floors_to, cut_losses,
};
use super::wrap::WrapView;
use super::wrap_builder::or_else;
use super::GRID_COLUMNS_COUNT;

verus! {

/// `keys[i]` comes before `keys[k]`: it is larger, or as large and earlier.
pub open spec fn key_before(keys: Seq<int>, i: int, k: int) -> bool {
    keys[i] > keys[k] || (keys[i] == keys[k] && i < k)
}

/// The positions of `keys[i..]` that come before `keys[k]`.
pub open spec fn before_set(keys: Seq<int>, k: int, i: int) -> Set<int> {
    set_int_range(i, keys.len() as int).filter(|j: int| key_before(keys, j, k))
}

/// A rank counts the keys that come before.
proof fn lemma_rank_counts(keys: Seq<int>, k: int, i: int)
    requires
        0 <= i <= keys.len(),
    ensures
        before_set(keys, k, i).finite(),
        key_rank(keys, k, i) == before_set(keys, k, i).len(),
    decreases keys.len() - i,
{
    let n = keys.len() as int;
    lemma_int_range(i, n);
    set_int_range(i, n).lemma_len_filter(|j: int| key_before(keys, j, k));
    if i < n {
        lemma_rank_counts(keys, k, i + 1);
        let rest = before_set(keys, k, i + 1);
        if key_before(keys, i, k) {
            assert(before_set(keys, k, i) =~= rest.insert(i));
            assert(!rest.contains(i));
        } else {
            assert(before_set(keys, k, i) =~= rest);
        }
    } else {
        assert(before_set(keys, k, i) =~= Set::empty());
    }
}

/// Ranks lie in `0..n`, and a key that comes before another has a smaller rank.
proof fn lemma_rank_order(keys: Seq<int>, k1: int, k2: int)
    requires
        0 <= k1 < keys.len(),
        0 <= k2 < keys.len(),
    ensures
        0 <= key_rank(keys, k1, 0) < keys.len(),
        key_before(keys, k1, k2) ==> key_rank(keys, k1, 0) < key_rank(keys, k2, 0),
{
    let n = keys.len() as int;
    lemma_rank_counts(keys, k1, 0);
    lemma_rank_counts(keys, k2, 0);
    lemma_int_range(0, n);
    let s1 = before_set(keys, k1, 0);
    let s2 = before_set(keys, k2, 0);
    assert(s1.subset_of(set_int_range(0, n).remove(k1)));
    lemma_len_subset(s1, set_int_range(0, n).remove(k1));
    if key_before(keys, k1, k2) {
        assert(s1.subset_of(s2.remove(k1)));
        lemma_len_subset(s1, s2.remove(k1));
        assert(s2.contains(k1));
    }
}

/// The ranks are exactly `0..n`.
proof fn lemma_ranks_onto(keys: Seq<int>)
    ensures
        set_int_range(0, keys.len() as int).map(|k: int| key_rank(keys, k, 0)) == set_int_range(0, keys.len() as int),
{
    let n = keys.len() as int;
    let f = |k: int| key_rank(keys, k, 0);
    let all = set_int_range(0, n);
    lemma_int_range(0, n);
    assert forall|k1: int, k2: int| all.contains(k1) && all.contains(k2) && #[trigger] f(k1) == #[trigger] f(k2)
        implies k1 == k2 by {
        lemma_rank_order(keys, k1, k2);
        lemma_rank_order(keys, k2, k1);
    }
    assert(vstd::relations::injective_on(f, all));
    lemma_map_size(all, all.map(f), f);
    assert forall|r: int| all.map(f).contains(r) implies all.contains(r) by {
        let k = choose|k: int| all.contains(k) && f(k) == r;
        lemma_rank_order(keys, k, k);
    }
    lemma_subset_equality(all.map(f), all);
}

/// The positions of `keys[j..]` whose rank is below `s`.
pub open spec fn ranked_below(keys: Seq<int>, s: int, j: int) -> Set<int> {
    set_int_range(j, keys.len() as int).filter(|k: int| key_rank(keys, k, 0) < s)
}

/// Exactly `s` keys have a rank below `s`.
proof fn lemma_ranked_below(keys: Seq<int>, s: int)
    requires
        0 <= s <= keys.len(),
    ensures
        ranked_below(keys, s, 0).finite(),
        ranked_below(keys, s, 0).len() == s,
{
    let n = keys.len() as int;
    let f = |k: int| key_rank(keys, k, 0);
    let a = ranked_below(keys, s, 0);
    lemma_int_range(0, n);
    lemma_int_range(0, s);
    set_int_range(0, n).lemma_len_filter(|k: int| key_rank(keys, k, 0) < s);
    lemma_ranks_onto(keys);
    assert forall|k1: int, k2: int| a.contains(k1) && a.contains(k2) && #[trigger] f(k1) == #[trigger] f(k2)
        implies k1 == k2 by {
        lemma_rank_order(keys, k1, k2);
        lemma_rank_order(keys, k2, k1);
    }
    assert(vstd::relations::injective_on(f, a));
    assert forall|r: int| #[trigger] set_int_range(0, s).contains(r) implies a.map(f).contains(r) by {
        assert(set_int_range(0, n).contains(r));
        assert(set_int_range(0, n).map(f).contains(r));
        let k = choose|k: int| set_int_range(0, n).contains(k) && f(k) == r;
        assert(a.contains(k));
    }
    assert forall|r: int| a.map(f).contains(r) implies #[trigger] set_int_range(0, s).contains(r) by {
        let k = choose|k: int| a.contains(k) && f(k) == r;
        lemma_rank_order(keys, k, k);
    }
    assert(a.map(f) =~= set_int_range(0, s));
    lemma_map_size(a, a.map(f), f);
}

/// The outside widths of the children `line[j..]`, added up.
pub open spec fn widths_from(width: int, line: Seq<usize>, w: Seq<WrapView>, j: int) -> int
    decreases line.len() - j,
{
    if 0 <= j < line.len() {
        line_width_of(width, line, w, j) + widths_from(width, line, w, j + 1)
    } else {
        0
    }
}

/// The widths are the shares plus one column for each child ranked below the spare columns.
proof fn lemma_widths_split(width: int, line: Seq<usize>, w: Seq<WrapView>, j: int)
    requires
        0 <= j <= line.len(),
    ensures
        ranked_below(line_losses(width, line, w), spare(width, line, w), j).finite(),
        widths_from(width, line, w, j) == shares_from(width, line, w, j) + ranked_below(
            line_losses(width, line, w),
            spare(width, line, w),
            j,
        ).len(),
    decreases line.len() - j,
{
    let n = line.len() as int;
    let sp = spare(width, line, w);
    lemma_int_range(j, n);
    set_int_range(j, n).lemma_len_filter(|k: int| key_rank(line_losses(width, line, w), k, 0) < sp);
    if j < n {
        lemma_widths_split(width, line, w, j + 1);
        let rest = ranked_below(line_losses(width, line, w), sp, j + 1);
        if share_rank_from(width, line, w, j, 0) < sp {
            assert(ranked_below(line_losses(width, line, w), sp, j) =~= rest.insert(j));
            assert(!rest.contains(j));
        } else {
            assert(ranked_below(line_losses(width, line, w), sp, j) =~= rest);
        }
    } else {
        assert(ranked_below(line_losses(width, line, w), sp, j) =~= Set::empty());
    }
}

/// Each share is the child's grid columns of the width, rounded down, so the shares of a line
/// fall short of the line's columns of the width by less than one column per child.
proof fn lemma_shares_bounds(width: int, line: Seq<usize>, w: Seq<WrapView>, j: int)
    requires
        0 <= width,
        0 <= j <= line.len(),
    ensures
        12 * shares_from(width, line, w, j) <= width * columns_from(line, w, j),
        12 * shares_from(width, line, w, j) >= width * columns_from(line, w, j) - 11 * (line.len() - j),
        columns_from(line, w, j) >= 0,
    decreases line.len() - j,
{
    if j < line.len() {
        lemma_shares_bounds(width, line, w, j + 1);
        let g = or_else(w[line[j] as int].grid_width, 0) as int;
        let rest = columns_from(line, w, j + 1);
        let p = width * g;
        assert(GRID_COLUMNS_COUNT as int == 12);
        assert(share(width, w[line[j] as int]) == p / 12);
        assert(width * (g + rest) == p + width * rest) by (nonlinear_arith)
            requires
                p == width * g,
        ;
        assert(p >= 0) by (nonlinear_arith)
            requires
                p == width * g,
                width >= 0,
                g >= 0,
        ;
        assert(12 * (p / 12) <= p && 12 * (p / 12) >= p - 11);
    }
}

/// The outside widths of the children of a line add up to the columns the line should fill:
/// its grid columns' share of the parent's inside width, rounded to the nearest. A line whose
/// grid columns do not add up to more than the grid fills no more than the width, and a full
/// line fills the width exactly. Each child gets its share rounded down or one column more, and
/// the children that get one more are those that rounding loses the most to: none of them loses
/// less than a child that gets none.
pub proof fn lemma_line_fills_its_columns(width: int, line: Seq<usize>, w: Seq<WrapView>)
    requires
        0 <= width,
        columns_from(line, w, 0) <= GRID_COLUMNS_COUNT,
    ensures
        widths_from(width, line, w, 0) == line_target(width, line, w),
        line_target(width, line, w) <= width,
        columns_from(line, w, 0) == GRID_COLUMNS_COUNT ==> widths_from(width, line, w, 0) == width,
        forall|k: int|
            0 <= k < line.len() ==> share(width, w[line[k] as int]) <= #[trigger] line_width_of(width, line, w, k)
                <= share(width, w[line[k] as int]) + 1,
        forall|j: int, k: int|
            0 <= j < line.len() && 0 <= k < line.len() && #[trigger] line_width_of(width, line, w, j) > share(
                width,
                w[line[j] as int],
            ) && #[trigger] line_width_of(width, line, w, k) == share(width, w[line[k] as int]) ==> share_loss(
                width,
                w[line[j] as int],
            ) >= share_loss(width, w[line[k] as int]),
{
    assert forall|j: int, k: int|
        0 <= j < line.len() && 0 <= k < line.len() && #[trigger] line_width_of(width, line, w, j) > share(
            width,
            w[line[j] as int],
        ) && #[trigger] line_width_of(width, line, w, k) == share(width, w[line[k] as int]) implies share_loss(
            width,
            w[line[j] as int],
        ) >= share_loss(width, w[line[k] as int]) by {
        lemma_rank_order(line_losses(width, line, w), k, j);
    }
    let n = line.len() as int;
    let c = columns_from(line, w, 0);
    let ss = shares_from(width, line, w, 0);
    lemma_shares_bounds(width, line, w, 0);
    assert(GRID_COLUMNS_COUNT as int == 12);
    let raw = (2 * width * c + 12) / 24;
    assert(raw <= width) by (nonlinear_arith)
        requires
            0 <= width,
            0 <= c <= 12,
            raw == (2 * width * c + 12) / 24,
    ;
    assert(line_target(width, line, w) == raw);
    assert(ss <= raw && raw - ss <= n) by (nonlinear_arith)
        requires
            12 * ss <= width * c,
            12 * ss >= width * c - 11 * n,
            raw == (2 * width * c + 12) / 24,
            n >= 0,
    ;
    assert(spare(width, line, w) == raw - ss);
    lemma_widths_split(width, line, w, 0);
    lemma_ranked_below(line_losses(width, line, w), raw - ss);
    if c == 12 {
        assert(raw == width) by (nonlinear_arith)
            requires
                raw == (2 * width * c + 12) / 24,
                c == 12,
        ;
    }
}

/// The heights of the first `i` lines once a node's height `h` is shared out, added up.
pub open spec fn shared_to(infos: Seq<(int, bool)>, h: int, i: int) -> int
    decreases i,
{
    if 0 < i <= infos.len() {
        shared_to(infos, h, i - 1) + shared_height(infos, h, i - 1)
    } else {
        0
    }
}

/// The lines among the first `i` whose rank by rounding loss is below `s`.
pub open spec fn ranked_before(keys: Seq<int>, s: int, i: int) -> Set<int> {
    set_int_range(0, i).filter(|k: int| key_rank(keys, k, 0) < s)
}

/// What the first `i` lines take once the height is shared out: when the lines asked for more,
/// their cut heights rounded down plus one row for each of them ranked below the spare rows;
/// when they asked for less and some line asked for none, what they asked for plus what is left
/// given to those; otherwise what they asked for.
proof fn lemma_shared_prefix(infos: Seq<(int, bool)>, h: int, i: int)
    requires
        0 <= i <= infos.len(),
    ensures
        ranked_before(cut_losses(infos, h), h - cut_floors_to(infos, h, infos.len() as int), i).finite(),
        ({
            let n = infos.len() as int;
            let sum = heights_to(infos, n);
            let cu = kind_before(infos, n, false);
            if sum > h {
                shared_to(infos, h, i) == cut_floors_to(infos, h, i) + ranked_before(
                    cut_losses(infos, h),
                    h - cut_floors_to(infos, h, n),
                    i,
                ).len()
            } else if sum < h && cu > 0 {
                let kb = kind_before(infos, i, false);
                shared_to(infos, h, i) == heights_to(infos, i) + kb * ((h - sum) / cu) + min_int(kb, (h - sum) % cu)
            } else {
                shared_to(infos, h, i) == heights_to(infos, i)
            }
        }),
    decreases i,
{
    let n = infos.len() as int;
    let sum = heights_to(infos, n);
    let cu = kind_before(infos, n, false);
    let keys = cut_losses(infos, h);
    let r = h - cut_floors_to(infos, h, n);
    lemma_int_range(0, i);
    set_int_range(0, i).lemma_len_filter(|k: int| key_rank(keys, k, 0) < r);
    if i > 0 {
        lemma_shared_prefix(infos, h, i - 1);
        let (base, defined) = infos[i - 1];
        let prev = ranked_before(keys, r, i - 1);
        if key_rank(keys, i - 1, 0) < r {
            assert(ranked_before(keys, r, i) =~= prev.insert(i - 1));
            assert(!prev.contains(i - 1));
        } else {
            assert(ranked_before(keys, r, i) =~= prev);
        }
        if sum < h && cu > 0 {
            let q = (h - sum) / cu;
            let kb = kind_before(infos, i - 1, false);
            assert(kind_before(infos, i, false) == kb + if !defined { 1int } else { 0int });
            if !defined {
                assert((kb + 1) * q == kb * q + q) by (nonlinear_arith);
            }
        }
    } else {
        assert(ranked_before(keys, r, 0) =~= Set::empty());
    }
}

/// The cut heights rounded down fall short of the exact cut by less than one row per line.
proof fn lemma_cut_floors_bounds(infos: Seq<(int, bool)>, h: int, i: int)
    requires
        0 <= i <= infos.len(),
        heights_to(infos, infos.len() as int) > 0,
    ensures
        ({
            let sum = heights_to(infos, infos.len() as int);
            &&& sum * cut_floors_to(infos, h, i) <= h * heights_to(infos, i)
            &&& sum * cut_floors_to(infos, h, i) >= h * heights_to(infos, i) - (sum - 1) * i
        }),
    decreases i,
{
    let sum = heights_to(infos, infos.len() as int);
    if i > 0 {
        lemma_cut_floors_bounds(infos, h, i - 1);
        let b = infos[i - 1].0;
        let p = b * h;
        vstd::arithmetic::div_mod::lemma_fundamental_div_mod(p, sum);
        vstd::arithmetic::div_mod::lemma_mod_bound(p, sum);
        let f = p / sum;
        assert(cut_floor(infos, h, i - 1) == f);
        assert(h * heights_to(infos, i) == h * heights_to(infos, i - 1) + p) by (nonlinear_arith)
            requires
                heights_to(infos, i) == heights_to(infos, i - 1) + b,
                p == b * h,
        ;
        assert(sum * cut_floors_to(infos, h, i) == sum * cut_floors_to(infos, h, i - 1) + sum * f) by (nonlinear_arith)
            requires
                cut_floors_to(infos, h, i) == cut_floors_to(infos, h, i - 1) + f,
        ;
        assert((sum - 1) * i == (sum - 1) * (i - 1) + (sum - 1)) by (nonlinear_arith);
    }
}

/// What rounding loses of the cut heights of the first `i` lines, added up.
pub open spec fn losses_to(keys: Seq<int>, i: int) -> int
    decreases i,
{
    if 0 < i <= keys.len() {
        losses_to(keys, i - 1) + keys[i - 1]
    } else {
        0
    }
}

/// The first `i` lines that rounding loses something to.
pub open spec fn losing_before(keys: Seq<int>, i: int) -> Set<int> {
    set_int_range(0, i).filter(|j: int| keys[j] > 0)
}

/// The losses add up to what the rounded-down cut heights fall short of the exact cut.
proof fn lemma_losses_add_up(infos: Seq<(int, bool)>, h: int, i: int)
    requires
        0 <= i <= infos.len(),
        heights_to(infos, infos.len() as int) > 0,
    ensures
        losses_to(cut_losses(infos, h), i) == h * heights_to(infos, i) - heights_to(infos, infos.len() as int)
            * cut_floors_to(infos, h, i),
    decreases i,
{
    let sum = heights_to(infos, infos.len() as int);
    if i > 0 {
        lemma_losses_add_up(infos, h, i - 1);
        let b = infos[i - 1].0;
        let p = b * h;
        vstd::arithmetic::div_mod::lemma_fundamental_div_mod(p, sum);
        assert(cut_losses(infos, h)[i - 1] == p % sum);
        assert(h * heights_to(infos, i) == h * heights_to(infos, i - 1) + p) by (nonlinear_arith)
            requires
                heights_to(infos, i) == heights_to(infos, i - 1) + b,
                p == b * h,
        ;
        assert(sum * cut_floors_to(infos, h, i) == sum * cut_floors_to(infos, h, i - 1) + sum * (p / sum))
            by (nonlinear_arith)
            requires
                cut_floors_to(infos, h, i) == cut_floors_to(infos, h, i - 1) + p / sum,
        ;
    }
}

/// No loss reaches `m`, so the losses add up to less than `m` for each line that loses something.
proof fn lemma_losses_bound(keys: Seq<int>, m: int, i: int)
    requires
        0 <= i <= keys.len(),
        forall|j: int| 0 <= j < keys.len() ==> 0 <= #[trigger] keys[j] <= m,
    ensures
        losing_before(keys, i).finite(),
        losses_to(keys, i) <= m * losing_before(keys, i).len(),
    decreases i,
{
    lemma_int_range(0, i);
    set_int_range(0, i).lemma_len_filter(|j: int| keys[j] > 0);
    if i > 0 {
        lemma_losses_bound(keys, m, i - 1);
        let prev = losing_before(keys, i - 1);
        assert(losses_to(keys, i) == losses_to(keys, i - 1) + keys[i - 1]);
        if keys[i - 1] > 0 {
            assert(losing_before(keys, i) =~= prev.insert(i - 1));
            assert(!prev.contains(i - 1));
            let c = losing_before(keys, i).len() as int;
            let c0 = prev.len() as int;
            assert(c == c0 + 1);
            assert(m * c == m * c0 + m) by (nonlinear_arith)
                requires
                    c == c0 + 1,
            ;
        } else {
            assert(losing_before(keys, i) =~= prev);
            assert(keys[i - 1] == 0);
        }
    } else {
        assert(losing_before(keys, 0) =~= Set::empty());
        assert(m * losing_before(keys, 0).len() == 0) by (nonlinear_arith)
            requires
                losing_before(keys, 0).len() == 0,
        ;
    }
}

/// When the lines asked for more than `h`, no line is given more than it asked for.
proof fn lemma_cut_within_ask(infos: Seq<(int, bool)>, h: int, i: int)
    requires
        h >= 0,
        forall|k: int| 0 <= k < infos.len() ==> #[trigger] infos[k].0 >= 0,
        heights_to(infos, infos.len() as int) > h,
        0 <= i < infos.len(),
    ensures
        0 <= shared_height(infos, h, i) <= infos[i].0,
{
    let n = infos.len() as int;
    let sum = heights_to(infos, n);
    let keys = cut_losses(infos, h);
    let fl = cut_floors_to(infos, h, n);
    let r = h - fl;
    let b = infos[i].0;
    let p = b * h;
    vstd::arithmetic::div_mod::lemma_fundamental_div_mod(p, sum);
    vstd::arithmetic::div_mod::lemma_mod_bound(p, sum);
    assert(p >= 0) by (nonlinear_arith)
        requires
            b >= 0,
            h >= 0,
            p == b * h,
    ;
    assert(p <= b * sum) by (nonlinear_arith)
        requires
            b >= 0,
            h < sum,
            p == b * h,
    ;
    let f = p / sum;
    assert(0 <= f <= b) by (nonlinear_arith)
        requires
            p == sum * f + p % sum,
            0 <= p % sum < sum,
            p >= 0,
            p <= b * sum,
            sum > 0,
    ;
    if key_rank(keys, i, 0) < r {
        if keys[i] == 0 {
            // every line that loses something comes before this one, so fewer than `r` lines
            // lose something, and their losses cannot add up to `r` rows
            lemma_rank_counts(keys, i, 0);
            let before = before_set(keys, i, 0);
            let losing = losing_before(keys, n);
            lemma_int_range(0, n);
            set_int_range(0, n).lemma_len_filter(|j: int| keys[j] > 0);
            assert(losing.subset_of(before));
            lemma_len_subset(losing, before);
            assert forall|j: int| 0 <= j < keys.len() implies 0 <= #[trigger] keys[j] <= sum - 1 by {
                let bj = infos[j].0;
                assert(bj * h >= 0) by (nonlinear_arith)
                    requires
                        bj >= 0,
                        h >= 0,
                ;
                vstd::arithmetic::div_mod::lemma_mod_bound(bj * h, sum);
            }
            lemma_losses_bound(keys, sum - 1, n);
            lemma_losses_add_up(infos, h, n);
            let c = losing.len() as int;
            assert(false) by (nonlinear_arith)
                requires
                    losses_to(keys, n) == h * sum - sum * fl,
                    losses_to(keys, n) <= (sum - 1) * c,
                    c <= key_rank(keys, i, 0),
                    key_rank(keys, i, 0) < h - fl,
                    sum > 0,
                    c >= 0,
            ;
        }
        assert(f < b) by (nonlinear_arith)
            requires
                p == sum * f + p % sum,
                0 < p % sum,
                p <= b * sum,
                sum > 0,
        ;
    }
}

/// Once a node's height is shared out among the lines of its children, the lines take exactly
/// the node's height when they asked for more (each cut in proportion, so they always fit, and
/// none is given more than it asked for) or when they asked for less and some line asked for
/// none; otherwise each keeps what it asked for.
pub proof fn lemma_lines_share_the_height(infos: Seq<(int, bool)>, h: int)
    requires
        h >= 0,
        forall|k: int| 0 <= k < infos.len() ==> #[trigger] infos[k].0 >= 0,
    ensures
        ({
            let n = infos.len() as int;
            let sum = heights_to(infos, n);
            shared_to(infos, h, n) == if sum > h || (sum < h && kind_before(infos, n, false) > 0) {
                h
            } else {
                sum
            }
        }),
        heights_to(infos, infos.len() as int) > h ==> forall|i: int|
            0 <= i < infos.len() ==> 0 <= #[trigger] shared_height(infos, h, i) <= infos[i].0,
{
    if heights_to(infos, infos.len() as int) > h {
        assert forall|i: int| 0 <= i < infos.len() implies 0 <= #[trigger] shared_height(infos, h, i)
            <= infos[i].0 by {
            lemma_cut_within_ask(infos, h, i);
        }
    }
    let n = infos.len() as int;
    let sum = heights_to(infos, n);
    let cu = kind_before(infos, n, false);
    lemma_shared_prefix(infos, h, n);
    if sum > h {
        let fl = cut_floors_to(infos, h, n);
        lemma_cut_floors_bounds(infos, h, n);
        assert(fl <= h && h - fl <= n) by (nonlinear_arith)
            requires
                sum * fl <= h * sum,
                sum * fl >= h * sum - (sum - 1) * n,
                sum > h,
                h >= 0,
                n >= 0,
        ;
        let keys = cut_losses(infos, h);
        lemma_ranked_below(keys, h - fl);
        assert(ranked_before(keys, h - fl, n) =~= ranked_below(keys, h - fl, 0));
    } else if sum < h && cu > 0 {
        let u = h - sum;
        assert(cu * (u / cu) + u % cu == u) by (nonlinear_arith)
            requires
                cu > 0,
        ;
        assert(u % cu < cu) by (nonlinear_arith)
            requires
                cu > 0,
        ;
    }
}

} // verus!
