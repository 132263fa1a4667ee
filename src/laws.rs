//! Properties that relate several calls of the parsers.
use vstd::prelude::*;

use crate::eslint::eslint_records;
use crate::jest::{
    continues_block, escaped_fail_from, fail_column, fail_marker, fail_word, jest_finish,
    jest_init, jest_records, jest_run, jest_step_probed, reset_fail,
    trim_trailing_empty,
};
use crate::normalize::{ansi_stripped, log_lines, next_visible_from, strip_timestamp};
use crate::record::{all_distinct, push_new, BlockModel, RecordView};
use crate::text::{lemma_find_from_bounds, skip_chars};
use crate::tsc::tsc_records;

verus! {

/// Parsing is a function of the log text alone: two parses of equal text give equal records,
/// for each of the three parsers.
pub proof fn lemma_parse_deterministic(a: Seq<char>, b: Seq<char>)
    requires
        a == b,
    ensures
        jest_records(a) == jest_records(b),
        eslint_records(a) == eslint_records(b),
        tsc_records(a) == tsc_records(b),
{
}


/// Feeds display lines `ds` with their probe lines `ps` to the test runner's parser, first
/// line first.
pub open spec fn jest_feed(m: BlockModel, ds: Seq<Seq<char>>, ps: Seq<Seq<char>>) -> BlockModel
    decreases ds.len(),
{
    if ds.len() == 0 || ps.len() == 0 {
        m
    } else {
        jest_feed(jest_step_probed(m, ds[0], ps[0]), ds.drop_first(), ps.drop_first())
    }
}

/// Each line behind the prefix.
pub open spec fn prefixed(prefix: Seq<char>, ds: Seq<Seq<char>>) -> Seq<Seq<char>> {
    ds.map_values(|d: Seq<char>| prefix + d)
}

/// Two parser states that agree on everything but the column, which the prefix shifts by `w`.
pub open spec fn shifted_alike(m: BlockModel, n: BlockModel, w: int) -> bool {
    &&& m.active == n.active
    &&& m.done == n.done
    &&& m.active ==> (m.path == n.path && m.block == n.block && m.col >= 0 && n.col == m.col + w)
}

pub proof fn lemma_skip_shift(prefix: Seq<char>, d: Seq<char>, c: int)
    requires
        c >= 0,
    ensures
        skip_chars(prefix + d, prefix.len() + c) == skip_chars(d, c),
{
    if c <= d.len() {
        assert(skip_chars(prefix + d, prefix.len() + c) =~= skip_chars(d, c));
    }
}

pub proof fn lemma_next_visible_shift(prefix: Seq<char>, d: Seq<char>, i: int, in_escape: bool)
    requires
        i >= 0,
    ensures
        next_visible_from(prefix + d, prefix.len() + i, in_escape) == next_visible_from(
            d,
            i,
            in_escape,
        ),
    decreases d.len() - i,
{
    let s = prefix + d;
    let j = prefix.len() + i;
    if i < d.len() {
        assert(s[j] == d[i]);
        if j + 1 < s.len() {
            assert(s[j + 1] == d[i + 1]);
        }
        lemma_next_visible_shift(prefix, d, i + 1, !crate::text::is_ascii_letter(d[i]));
        lemma_next_visible_shift(prefix, d, i + 1, false);
        if i + 1 < d.len() {
            lemma_next_visible_shift(prefix, d, i + 2, true);
            lemma_next_visible_shift(prefix, d, i + 2, false);
        }
    }
}

pub proof fn lemma_escaped_fail_from_bound(s: Seq<char>, i: int)
    requires
        i >= 0,
    ensures
        escaped_fail_from(s, i) is Some ==> escaped_fail_from(s, i)->0 >= i,
    decreases s.len() - i,
{
    if i < s.len() && !crate::jest::escapes_then_fail(s, i) {
        lemma_escaped_fail_from_bound(s, i + 1);
    }
}

pub proof fn lemma_fail_column_nonneg(d: Seq<char>)
    ensures
        fail_column(d) >= 0,
{
    lemma_find_from_bounds(d, reset_fail(), 0);
    lemma_find_from_bounds(d, fail_word(), 0);
    lemma_escaped_fail_from_bound(d, 0);
}

/// One line: the plain line and the prefixed one take the parser to states that agree.
pub proof fn lemma_step_shift(
    m: BlockModel,
    n: BlockModel,
    prefix: Seq<char>,
    d: Seq<char>,
    p: Seq<char>,
    p2: Seq<char>,
)
    requires
        shifted_alike(m, n, prefix.len() as int),
        fail_marker(p2) == fail_marker(p),
        fail_marker(p) is Some ==> fail_column(prefix + d) == prefix.len() + fail_column(d),
    ensures
        shifted_alike(
            jest_step_probed(m, d, p),
            jest_step_probed(n, prefix + d, p2),
            prefix.len() as int,
        ),
{
    let w = prefix.len() as int;
    lemma_fail_column_nonneg(d);
    if fail_marker(p) is Some {
        lemma_skip_shift(prefix, d, fail_column(d));
    } else if m.active {
        lemma_next_visible_shift(prefix, d, m.col, false);
        lemma_skip_shift(prefix, d, m.col);
        assert(continues_block(prefix + d, n.col) == continues_block(d, m.col));
    }
}

/// Prefix robustness: lines that each carry the same prefix, of any width, give the same
/// records as the bare lines, whenever the prefix leaves alone what each probe says about a
/// `FAIL` marker and moves each block's start column by exactly its width.
pub proof fn lemma_prefix_robust(
    prefix: Seq<char>,
    ds: Seq<Seq<char>>,
    ps: Seq<Seq<char>>,
    ps2: Seq<Seq<char>>,
    m: BlockModel,
    n: BlockModel,
)
    requires
        ds.len() == ps.len() == ps2.len(),
        forall|i: int| 0 <= i < ds.len() ==> fail_marker(#[trigger] ps2[i]) == fail_marker(ps[i]),
        forall|i: int|
            0 <= i < ds.len() && fail_marker(#[trigger] ps[i]) is Some ==> fail_column(prefix + ds[i])
                == prefix.len() + fail_column(ds[i]),
        shifted_alike(m, n, prefix.len() as int),
    ensures
        shifted_alike(
            jest_feed(m, ds, ps),
            jest_feed(n, prefixed(prefix, ds), ps2),
            prefix.len() as int,
        ),
        jest_finish(jest_feed(m, ds, ps)).done == jest_finish(
            jest_feed(n, prefixed(prefix, ds), ps2),
        ).done,
    decreases ds.len(),
{
    let pds = prefixed(prefix, ds);
    if ds.len() > 0 {
        assert(pds[0] == prefix + ds[0]);
        lemma_step_shift(m, n, prefix, ds[0], ps[0], ps2[0]);
        assert(prefixed(prefix, ds.drop_first()) =~= pds.drop_first());
        lemma_prefix_robust(
            prefix,
            ds.drop_first(),
            ps.drop_first(),
            ps2.drop_first(),
            jest_step_probed(m, ds[0], ps[0]),
            jest_step_probed(n, prefix + ds[0], ps2[0]),
        );
    }
}


pub proof fn lemma_feed_push(
    m: BlockModel,
    ds: Seq<Seq<char>>,
    ps: Seq<Seq<char>>,
    d: Seq<char>,
    p: Seq<char>,
)
    requires
        ds.len() == ps.len(),
    ensures
        jest_feed(m, ds.push(d), ps.push(p)) == jest_step_probed(jest_feed(m, ds, ps), d, p),
    decreases ds.len(),
{
    reveal_with_fuel(jest_feed, 2);
    if ds.len() == 0 {
        assert(ds.push(d).drop_first() =~= Seq::<Seq<char>>::empty());
        assert(ps.push(p).drop_first() =~= Seq::<Seq<char>>::empty());
        assert(ds.push(d)[0] == d);
        assert(ps.push(p)[0] == p);
    } else {
        assert(ds.push(d).drop_first() =~= ds.drop_first().push(d));
        assert(ps.push(p).drop_first() =~= ps.drop_first().push(p));
        assert(ds.push(d)[0] == ds[0]);
        assert(ps.push(p)[0] == ps[0]);
        lemma_feed_push(
            jest_step_probed(m, ds[0], ps[0]),
            ds.drop_first(),
            ps.drop_first(),
            d,
            p,
        );
    }
}

pub proof fn lemma_feed_concat(
    m: BlockModel,
    a: Seq<Seq<char>>,
    pa: Seq<Seq<char>>,
    b: Seq<Seq<char>>,
    pb: Seq<Seq<char>>,
)
    requires
        a.len() == pa.len(),
        b.len() == pb.len(),
    ensures
        jest_feed(m, a + b, pa + pb) == jest_feed(jest_feed(m, a, pa), b, pb),
    decreases a.len(),
{
    if a.len() > 0 {
        assert((a + b).drop_first() =~= a.drop_first() + b);
        assert((pa + pb).drop_first() =~= pa.drop_first() + pb);
        assert((a + b)[0] == a[0]);
        assert((pa + pb)[0] == pa[0]);
        lemma_feed_concat(jest_step_probed(m, a[0], pa[0]), a.drop_first(), pa.drop_first(), b, pb);
    } else {
        assert(a + b =~= b);
        assert(pa + pb =~= pb);
    }
}

/// The display forms of raw lines.
pub open spec fn displays(lines: Seq<Seq<char>>) -> Seq<Seq<char>> {
    lines.map_values(|l: Seq<char>| strip_timestamp(l))
}

/// The probe forms of raw lines.
pub open spec fn probes(lines: Seq<Seq<char>>) -> Seq<Seq<char>> {
    lines.map_values(|l: Seq<char>| ansi_stripped(strip_timestamp(l)))
}

pub proof fn lemma_run_is_feed(lines: Seq<Seq<char>>)
    ensures
        jest_run(lines) == jest_feed(jest_init(), displays(lines), probes(lines)),
    decreases lines.len(),
{
    if lines.len() > 0 {
        let init = lines.drop_last();
        lemma_run_is_feed(init);
        assert(displays(lines) =~= displays(init).push(strip_timestamp(lines.last())));
        assert(probes(lines) =~= probes(init).push(ansi_stripped(strip_timestamp(lines.last()))));
        lemma_feed_push(
            jest_init(),
            displays(init),
            probes(init),
            strip_timestamp(lines.last()),
            ansi_stripped(strip_timestamp(lines.last())),
        );
    }
}

/// The test runner's records of a log are what feeding its lines' display and probe forms
/// gives, first line first.
pub proof fn lemma_records_by_feed(log: Seq<char>)
    ensures
        jest_records(log) == jest_finish(
            jest_feed(jest_init(), displays(log_lines(log)), probes(log_lines(log))),
        ).done,
{
    lemma_run_is_feed(log_lines(log));
}

/// A block of the test runner's log: a start line whose probe holds a `FAIL` marker, then lines
/// whose probes hold none and that continue at the block's column.
pub open spec fn is_fail_block(d: Seq<Seq<char>>, p: Seq<Seq<char>>) -> bool {
    &&& d.len() >= 1 && d.len() == p.len()
    &&& fail_marker(p[0]) is Some
    &&& forall|j: int|
        1 <= j < d.len() ==> fail_marker(#[trigger] p[j]) is None && continues_block(
            d[j],
            fail_column(d[0]),
        )
}

pub open spec fn block_lines(d: Seq<Seq<char>>) -> Seq<Seq<char>> {
    d.map_values(|l: Seq<char>| skip_chars(l, fail_column(d[0])))
}

/// The record a block gives: its marker's path and its lines from the block's column on.
pub open spec fn block_record(d: Seq<Seq<char>>, p: Seq<Seq<char>>) -> RecordView {
    (fail_marker(p[0])->0, trim_trailing_empty(block_lines(d)))
}

pub open spec fn block_records(bd: Seq<Seq<Seq<char>>>, bp: Seq<Seq<Seq<char>>>) -> Seq<
    RecordView,
>
    decreases bd.len(),
{
    if bd.len() == 0 || bp.len() == 0 {
        Seq::empty()
    } else {
        block_records(bd.drop_last(), bp.drop_last()).push(block_record(bd.last(), bp.last()))
    }
}

pub open spec fn flatten(bs: Seq<Seq<Seq<char>>>) -> Seq<Seq<char>>
    decreases bs.len(),
{
    if bs.len() == 0 {
        Seq::empty()
    } else {
        flatten(bs.drop_last()) + bs.last()
    }
}

/// The records without repeats, first ones kept.
pub open spec fn dedup(s: Seq<RecordView>) -> Seq<RecordView>
    decreases s.len(),
{
    if s.len() == 0 {
        Seq::empty()
    } else {
        push_new(dedup(s.drop_last()), s.last())
    }
}

pub proof fn lemma_dedup_distinct(s: Seq<RecordView>)
    requires
        all_distinct(s),
    ensures
        dedup(s) == s,
    decreases s.len(),
{
    if s.len() > 0 {
        let init = s.drop_last();
        assert(all_distinct(init)) by {
            assert forall|i: int, j: int| 0 <= i < j < init.len() implies init[i] != init[j] by {
                assert(init[i] == s[i] && init[j] == s[j]);
            }
        }
        lemma_dedup_distinct(init);
        if init.contains(s.last()) {
            let k = choose|k: int| 0 <= k < init.len() && init[k] == s.last();
            assert(s[k] == s[s.len() - 1]);
        }
        assert(init.push(s.last()) =~= s);
    }
}

/// The continuation lines of a block only add their text to the open block.
pub proof fn lemma_feed_continuations(m: BlockModel, ds: Seq<Seq<char>>, ps: Seq<Seq<char>>)
    requires
        m.active,
        ds.len() == ps.len(),
        forall|j: int|
            0 <= j < ds.len() ==> fail_marker(#[trigger] ps[j]) is None && continues_block(
                ds[j],
                m.col,
            ),
    ensures
        jest_feed(m, ds, ps) == (BlockModel {
            block: m.block + ds.map_values(|l: Seq<char>| skip_chars(l, m.col)),
            ..m
        }),
    decreases ds.len(),
{
    if ds.len() > 0 {
        let n = BlockModel { block: m.block.push(skip_chars(ds[0], m.col)), ..m };
        assert(jest_step_probed(m, ds[0], ps[0]) == n);
        assert forall|j: int| 0 <= j < ds.drop_first().len() implies fail_marker(
            #[trigger] ps.drop_first()[j],
        ) is None && continues_block(ds.drop_first()[j], n.col) by {
            assert(ps.drop_first()[j] == ps[j + 1]);
            assert(ds.drop_first()[j] == ds[j + 1]);
        }
        lemma_feed_continuations(n, ds.drop_first(), ps.drop_first());
        assert(n.block + ds.drop_first().map_values(|l: Seq<char>| skip_chars(l, m.col))
            =~= m.block + ds.map_values(|l: Seq<char>| skip_chars(l, m.col)));
    } else {
        assert(m.block + ds.map_values(|l: Seq<char>| skip_chars(l, m.col)) =~= m.block);
    }
}

/// The state after the blocks: the last block open, the earlier ones closed into records.
pub open spec fn after_blocks(bd: Seq<Seq<Seq<char>>>, bp: Seq<Seq<Seq<char>>>) -> BlockModel {
    if bd.len() == 0 {
        jest_init()
    } else {
        BlockModel {
            active: true,
            col: fail_column(bd.last()[0]),
            path: fail_marker(bp.last()[0])->0,
            block: block_lines(bd.last()),
            done: dedup(block_records(bd.drop_last(), bp.drop_last())),
        }
    }
}

pub proof fn lemma_flatten_len(bd: Seq<Seq<Seq<char>>>, bp: Seq<Seq<Seq<char>>>)
    requires
        bd.len() == bp.len(),
        forall|k: int| 0 <= k < bd.len() ==> (#[trigger] bd[k]).len() == bp[k].len(),
    ensures
        flatten(bd).len() == flatten(bp).len(),
    decreases bd.len(),
{
    if bd.len() > 0 {
        assert forall|k: int| 0 <= k < bd.drop_last().len() implies (
        #[trigger] bd.drop_last()[k]).len() == bp.drop_last()[k].len() by {
            assert(bd.drop_last()[k] == bd[k]);
            assert(bp.drop_last()[k] == bp[k]);
        }
        lemma_flatten_len(bd.drop_last(), bp.drop_last());
        assert(bd.last().len() == bp[bp.len() - 1].len());
    }
}

pub proof fn lemma_feed_blocks(bd: Seq<Seq<Seq<char>>>, bp: Seq<Seq<Seq<char>>>)
    requires
        bd.len() == bp.len(),
        forall|k: int| 0 <= k < bd.len() ==> is_fail_block(#[trigger] bd[k], bp[k]),
    ensures
        jest_feed(jest_init(), flatten(bd), flatten(bp)) == after_blocks(bd, bp),
    decreases bd.len(),
{
    if bd.len() > 0 {
        let bd0 = bd.drop_last();
        let bp0 = bp.drop_last();
        let d = bd.last();
        let p = bp.last();
        assert(is_fail_block(d, p)) by {
            assert(bp.last() == bp[bp.len() - 1]);
        }
        assert forall|k: int| 0 <= k < bd0.len() implies is_fail_block(#[trigger] bd0[k], bp0[k]) by {
            assert(bd0[k] == bd[k]);
            assert(bp0[k] == bp[k]);
        }
        lemma_feed_blocks(bd0, bp0);
        assert forall|k: int| 0 <= k < bd0.len() implies (#[trigger] bd0[k]).len() == bp0[k].len() by {
            assert(is_fail_block(bd0[k], bp0[k]));
        }
        lemma_flatten_len(bd0, bp0);
        lemma_feed_concat(jest_init(), flatten(bd0), flatten(bp0), d, p);
        let m = after_blocks(bd0, bp0);
        let col = fail_column(d[0]);
        let opened = jest_step_probed(m, d[0], p[0]);
        assert(d =~= seq![d[0]] + d.drop_first());
        assert(p =~= seq![p[0]] + p.drop_first());
        lemma_feed_concat(m, seq![d[0]], seq![p[0]], d.drop_first(), p.drop_first());
        assert(jest_feed(m, seq![d[0]], seq![p[0]]) == opened) by {
            reveal_with_fuel(jest_feed, 2);
            assert(seq![d[0]].drop_first() =~= Seq::<Seq<char>>::empty());
            assert(seq![p[0]].drop_first() =~= Seq::<Seq<char>>::empty());
            assert(seq![d[0]][0] == d[0]);
            assert(seq![p[0]][0] == p[0]);
        }
        if bd0.len() > 0 {
            lemma_dedup_step(bd0, bp0);
        }
        assert(opened.done == dedup(block_records(bd0, bp0)));
        assert(opened.active && opened.col == col);
        assert forall|j: int| 0 <= j < d.drop_first().len() implies fail_marker(
            #[trigger] p.drop_first()[j],
        ) is None && continues_block(d.drop_first()[j], opened.col) by {
            assert(p.drop_first()[j] == p[j + 1]);
            assert(d.drop_first()[j] == d[j + 1]);
        }
        lemma_feed_continuations(opened, d.drop_first(), p.drop_first());
        assert(opened.block + d.drop_first().map_values(|l: Seq<char>| skip_chars(l, col))
            =~= block_lines(d));
        assert(flatten(bd) == flatten(bd0) + d);
        assert(flatten(bp) == flatten(bp0) + p);
    }
}

/// Closing the last block adds its record, unless an equal one is there.
pub proof fn lemma_dedup_step(bd: Seq<Seq<Seq<char>>>, bp: Seq<Seq<Seq<char>>>)
    requires
        bd.len() == bp.len(),
        bd.len() > 0,
    ensures
        dedup(block_records(bd, bp)) == push_new(
            dedup(block_records(bd.drop_last(), bp.drop_last())),
            block_record(bd.last(), bp.last()),
        ),
{
    let s = block_records(bd, bp);
    assert(s == block_records(bd.drop_last(), bp.drop_last()).push(
        block_record(bd.last(), bp.last()),
    ));
    assert(s.drop_last() =~= block_records(bd.drop_last(), bp.drop_last()));
    assert(s.last() == block_record(bd.last(), bp.last()));
}

/// Blocks in order: a log whose lines form consecutive `FAIL` blocks, with no other line
/// between or around them, gives one record per block, in the blocks' order, each with its
/// marker's path and its lines from the block's column on; an equal block seen again gives no
/// second record, so blocks that all differ give exactly as many records as there are blocks.
pub proof fn lemma_blocks_in_order(bd: Seq<Seq<Seq<char>>>, bp: Seq<Seq<Seq<char>>>)
    requires
        bd.len() == bp.len(),
        forall|k: int| 0 <= k < bd.len() ==> is_fail_block(#[trigger] bd[k], bp[k]),
    ensures
        jest_finish(jest_feed(jest_init(), flatten(bd), flatten(bp))).done == dedup(
            block_records(bd, bp),
        ),
        all_distinct(block_records(bd, bp)) ==> jest_finish(
            jest_feed(jest_init(), flatten(bd), flatten(bp)),
        ).done == block_records(bd, bp),
        block_records(bd, bp).len() == bd.len(),
        forall|k: int| 0 <= k < bd.len() ==> (#[trigger] block_records(bd, bp)[k]).0 == fail_marker(bp[k][0])->0,
{
    lemma_feed_blocks(bd, bp);
    lemma_block_records_shape(bd, bp);
    if bd.len() > 0 {
        lemma_dedup_step(bd, bp);
    }
    if all_distinct(block_records(bd, bp)) {
        lemma_dedup_distinct(block_records(bd, bp));
    }
}

pub proof fn lemma_block_records_shape(bd: Seq<Seq<Seq<char>>>, bp: Seq<Seq<Seq<char>>>)
    requires
        bd.len() == bp.len(),
    ensures
        block_records(bd, bp).len() == bd.len(),
        forall|k: int| 0 <= k < bd.len() ==> (#[trigger] block_records(bd, bp)[k]).0 == fail_marker(bp[k][0])->0,
    decreases bd.len(),
{
    if bd.len() > 0 {
        lemma_block_records_shape(bd.drop_last(), bp.drop_last());
        assert forall|k: int| 0 <= k < bd.len() implies (#[trigger] block_records(bd, bp)[k]).0
            == fail_marker(bp[k][0])->0 by {
            if k < bd.len() - 1 {
                assert(block_records(bd, bp)[k] == block_records(bd.drop_last(), bp.drop_last())[k]);
                assert(bp.drop_last()[k] == bp[k]);
            }
        }
    }
}


/// A block that stands twice, verbatim (once while the tests run, once in the summary of
/// failing tests), gives exactly one record.
pub proof fn lemma_repeated_block_once(d: Seq<Seq<char>>, p: Seq<Seq<char>>)
    requires
        is_fail_block(d, p),
    ensures
        jest_finish(jest_feed(jest_init(), d + d, p + p)).done == seq![block_record(d, p)],
{
    let bd = seq![d, d];
    let bp = seq![p, p];
    assert forall|k: int| 0 <= k < bd.len() implies is_fail_block(#[trigger] bd[k], bp[k]) by {}
    lemma_blocks_in_order(bd, bp);
    reveal_with_fuel(flatten, 3);
    assert(bd.drop_last() =~= seq![d]);
    assert(bp.drop_last() =~= seq![p]);
    assert(seq![d].drop_last() =~= Seq::<Seq<Seq<char>>>::empty());
    assert(seq![p].drop_last() =~= Seq::<Seq<Seq<char>>>::empty());
    assert(flatten(bd) =~= d + d);
    assert(flatten(bp) =~= p + p);
    reveal_with_fuel(block_records, 3);
    let r = block_record(d, p);
    assert(block_records(bd, bp) =~= seq![r, r]);
    reveal_with_fuel(dedup, 3);
    assert(seq![r, r].drop_last() =~= seq![r]);
    assert(seq![r].drop_last() =~= Seq::<RecordView>::empty());
    assert(Seq::<RecordView>::empty().push(r) =~= seq![r]);
    assert(seq![r].contains(r)) by {
        assert(seq![r][0] == r);
    }
}

} // verus!
