//! Round-trip time from the output of one `ping` echo request.
use vstd::prelude::*;
use crate::number::{Decimal, decimal_of, parse_decimal};
use crate::text::{
    chars_of, find, find_exec, first_containing, lemma_find_from_some, lines, slice_of, split_lines,
    views,
};

verus! {

/// The text of `s` up to its first space, or all of it.
pub open spec fn up_to_space(s: Seq<char>) -> Seq<char> {
    match find(s, seq![' ']) {
        Some(e) => s.take(e),
        None => s,
    }
}

/// The round-trip time that `ping` output reports: on the first line that
/// holds `time=`, the number right after its first `time=`, up to the next
/// space.
pub open spec fn ping_ms_of(out: Seq<char>) -> Option<Decimal> {
    let ls = lines(out);
    match first_containing(ls, "time="@, 0) {
        Some(i) => decimal_of(up_to_space(ls[i].skip(find(ls[i], "time="@)->0 + "time="@.len()))),
        None => None,
    }
}

/// Reads the round-trip time, in milliseconds, from the output of `ping`.
pub fn parse_ping_ms(output: &str) -> (r: Option<Decimal>)
    ensures
        r == ping_ms_of(output@),
{
    let text = chars_of(output);
    let ls = split_lines(&text);
    let marker = chars_of("time=");
    let space: Vec<char> = vec![' '];
    assert(space@ =~= seq![' ']);
    let mut i: usize = 0;
    while i < ls.len()
        invariant
            i <= ls.len(),
            views(ls@) == lines(text@),
            text@ == output@,
            marker@ == "time="@,
            space@ == seq![' '],
            first_containing(views(ls@), marker@, 0) == first_containing(views(ls@), marker@, i as int),
        decreases ls.len() - i,
    {
        let line = &ls[i];
        assert(views(ls@)[i as int] == line@);
        match find_exec(line, &marker) {
            Some(k) => {
                proof { lemma_find_from_some(line@, marker@, 0, k as int); }
                assert(k + marker@.len() <= line@.len());
                assert(k + marker.len() <= line.len());
                let start: usize = k + marker.len();
                let rest = slice_of(line, start, line.len());
                assert(rest@ =~= line@.skip(k + marker@.len()));
                let tok = match find_exec(&rest, &space) {
                    Some(e) => {
                        proof { lemma_find_from_some(rest@, space@, 0, e as int); }
                        slice_of(&rest, 0, e)
                    },
                    None => slice_of(&rest, 0, rest.len()),
                };
                assert(tok@ =~= up_to_space(rest@));
                return parse_decimal(&tok);
            },
            None => {},
        }
        i = i + 1;
    }
    None
}

} // verus!
