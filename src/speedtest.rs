//! Download and upload rates from the simple output of a speed test.
use vstd::prelude::*;
use crate::number::{Decimal, decimal_of, parse_decimal};
use crate::text::{chars_of, lines, occurs_at_exec, split_lines, split_words, starts_with, views, words};

verus! {

/// What a scan of the output has found so far: the last download rate, the
/// last upload rate, and whether a rate line lacked its value.
pub type SpeedScan = (Option<Decimal>, Option<Decimal>, bool);

/// One line of the scan. A line that starts with `Download:` or `Upload:`
/// sets that rate from its second word; when the line has no second word the
/// whole scan is void.
pub open spec fn speed_step(st: SpeedScan, l: Seq<char>) -> SpeedScan {
    if st.2 {
        st
    } else if starts_with(l, "Download:"@) {
        if words(l).len() < 2 {
            (st.0, st.1, true)
        } else {
            (decimal_of(words(l)[1]), st.1, false)
        }
    } else if starts_with(l, "Upload:"@) {
        if words(l).len() < 2 {
            (st.0, st.1, true)
        } else {
            (st.0, decimal_of(words(l)[1]), false)
        }
    } else {
        st
    }
}

pub open spec fn speed_scan(ls: Seq<Seq<char>>) -> SpeedScan
    decreases ls.len(),
{
    if ls.len() == 0 {
        (None, None, false)
    } else {
        speed_step(speed_scan(ls.drop_last()), ls.last())
    }
}

/// The (download, upload) pair that the output reports, present only when
/// both rates were read.
pub open spec fn speedtest_of(out: Seq<char>) -> Option<(Decimal, Decimal)> {
    let st = speed_scan(lines(out));
    if !st.2 && st.0 is Some && st.1 is Some {
        Some((st.0->0, st.1->0))
    } else {
        None
    }
}

/// Reads the download and upload rates, in Mbit/s, from the simple output
/// of a speed test; both or neither.
pub fn parse_speedtest(output: &str) -> (r: Option<(Decimal, Decimal)>)
    ensures
        r == speedtest_of(output@),
        r is None <==> (speed_scan(lines(output@)).2 || speed_scan(lines(output@)).0 is None
            || speed_scan(lines(output@)).1 is None),
{
    let text = chars_of(output);
    let ls = split_lines(&text);
    let down_tag = chars_of("Download:");
    let up_tag = chars_of("Upload:");
    let mut download: Option<Decimal> = None;
    let mut upload: Option<Decimal> = None;
    let mut i: usize = 0;
    while i < ls.len()
        invariant
            i <= ls.len(),
            views(ls@) == lines(text@),
            text@ == output@,
            down_tag@ == "Download:"@,
            up_tag@ == "Upload:"@,
            speed_scan(views(ls@).take(i as int)) == (download, upload, false),
        decreases ls.len() - i,
    {
        let line = &ls[i];
        let ghost pre = views(ls@).take(i as int);
        assert(views(ls@).take(i + 1).drop_last() =~= pre);
        assert(views(ls@).take(i + 1).last() == line@);
        if occurs_at_exec(line, &down_tag, 0) {
            let ws = split_words(line);
            if ws.len() < 2 {
                proof { lemma_scan_stays_void(views(ls@), i as int + 1); }
                assert(views(ls@).take(ls.len() as int) =~= views(ls@));
                return None;
            }
            assert(views(ws@)[1] == ws[1]@);
            download = parse_decimal(&ws[1]);
        } else if occurs_at_exec(line, &up_tag, 0) {
            let ws = split_words(line);
            if ws.len() < 2 {
                proof { lemma_scan_stays_void(views(ls@), i as int + 1); }
                assert(views(ls@).take(ls.len() as int) =~= views(ls@));
                return None;
            }
            assert(views(ws@)[1] == ws[1]@);
            upload = parse_decimal(&ws[1]);
        }
        i = i + 1;
    }
    assert(views(ls@).take(ls.len() as int) =~= views(ls@));
    match (download, upload) {
        (Some(d), Some(u)) => Some((d, u)),
        _ => None,
    }
}

/// Once a scan is void, the lines after it leave it void.
proof fn lemma_scan_stays_void(ls: Seq<Seq<char>>, i: int)
    requires
        0 <= i <= ls.len(),
        speed_scan(ls.take(i)).2,
    ensures
        speed_scan(ls).2,
    decreases ls.len() - i,
{
    if i < ls.len() {
        assert(ls.take(i + 1).drop_last() =~= ls.take(i));
        lemma_scan_stays_void(ls, i + 1);
    } else {
        assert(ls.take(i) =~= ls);
    }
}

} // verus!
