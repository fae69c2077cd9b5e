//! Reading the statistics that the server writes.
use crate::text::{lines, lines_of, parse_i64, parse_i64_spec, split_char, split_on, split_whitespace, utf8_string, views, words_of};
use chrono::{DateTime, Utc};
use vstd::prelude::*;
use vstd::utf8::{decode_utf8, valid_utf8};

verus! {

/// Where the server writes its statistics, one line per sample.
pub const STATS_FILE: &'static str = "/run/minecraft/stats";

/// Whether `DateTime::<Utc>::from_timestamp_secs` accepts a number of
/// seconds: those whose day chrono places in its years -262143 to 262142,
/// from the start of the first such day to the end of the last.
pub open spec fn chrono_accepts_secs(secs: i64) -> bool {
    -8334601228800 <= secs <= 8210266876799
}

/// Calls `chrono::DateTime::<Utc>::from_timestamp_secs` and tells whether it
/// gave a date. Claims that it does exactly for the seconds of
/// `chrono_accepts_secs`: `from_timestamp` gives `None` only when the day
/// falls outside the years `MIN_YEAR` to `MAX_YEAR` (the time of day is
/// always valid with no nanoseconds).
#[verifier::external_body]
fn chrono_accepts(secs: i64) -> (r: bool)
    ensures
        r == chrono_accepts_secs(secs),
{
    DateTime::<Utc>::from_timestamp_secs(secs).is_some()
}

pub struct StatsReaderJob;

/// A sample of the statistics file, read as far as the library reads it:
/// the time stamp in seconds since the Unix epoch (one that chrono accepts),
/// and the tick rate left as text.
pub struct StatsLine {
    pub secs: i64,
    pub tps: String,
    pub players: Vec<String>,
}

/// A line holds a sample when it has a time stamp and a tick rate, and
/// the time stamp is a number of seconds that chrono accepts.
pub open spec fn is_sample(line: Seq<char>) -> bool {
    let w = words_of(line);
    &&& w.len() >= 2
    &&& parse_i64_spec(w[0]) is Some
    &&& chrono_accepts_secs(parse_i64_spec(w[0])->0)
}

/// The players of a sample: the third word, split at commas (one empty name
/// when there is no third word).
pub open spec fn players_of(line: Seq<char>) -> Seq<Seq<char>> {
    let w = words_of(line);
    split_on(if w.len() >= 3 { w[2] } else { Seq::empty() }, ',')
}

/// Reads one line of the statistics file.
pub fn parse_stats_line(line: &str) -> (r: Option<StatsLine>)
    ensures
        r is Some <==> is_sample(line@),
        r matches Some(s) ==> Some(s.secs) == parse_i64_spec(words_of(line@)[0]) && s.tps@ == words_of(line@)[1]
            && views(s.players@) == players_of(line@),
{
    let words = split_whitespace(line);
    proof {
        assert(views(words@).len() == words@.len());
    }
    if words.len() < 2 {
        return None;
    }
    proof {
        assert(words@[0]@ == words_of(line@)[0]);
        assert(words@[1]@ == words_of(line@)[1]);
    }
    let secs = match parse_i64(words[0].as_str()) {
        None => {
            return None;
        },
        Some(v) => v,
    };
    if !chrono_accepts(secs) {
        return None;
    }
    let tps = words[1].clone();
    let players = if words.len() >= 3 {
        proof {
            assert(words@[2]@ == words_of(line@)[2]);
        }
        split_char(words[2].as_str(), ',')
    } else {
        split_char("", ',')
    };
    proof {
        if words.len() < 3 {
            assert(""@ =~= Seq::<char>::empty()) by {
                reveal_strlit("");
            }
        }
    }
    Some(StatsLine { secs, tps, players })
}

/// The lines of a text that hold samples, in order.
pub open spec fn sample_lines(ls: Seq<Seq<char>>) -> Seq<Seq<char>> {
    ls.filter(|l: Seq<char>| is_sample(l))
}

impl StatsReaderJob {
    /// Reads the samples of the statistics file from its contents (`None`
    /// when it could not be read). `None` when it could not be read or is
    /// not UTF-8; otherwise the samples of its lines, in order, skipping the
    /// lines that hold none.
    pub fn samples(contents: Option<Vec<u8>>) -> (r: Option<Vec<StatsLine>>)
        ensures
            match contents {
                None => r is None,
                Some(c) => if !valid_utf8(c@) {
                    r is None
                } else {
                    r matches Some(v) && v@.len() == sample_lines(lines_of(decode_utf8(c@))).len() && forall|j: int|
                        0 <= j < v@.len() ==> Some((#[trigger] v@[j]).secs) == parse_i64_spec(
                            words_of(sample_lines(lines_of(decode_utf8(c@)))[j])[0],
                        ) && v@[j].tps@ == words_of(
                            sample_lines(lines_of(decode_utf8(c@)))[j],
                        )[1] && views(v@[j].players@) == players_of(sample_lines(lines_of(decode_utf8(c@)))[j])
                },
            },
    {
        let bytes = match contents {
            None => {
                return None;
            },
            Some(c) => c,
        };
        let ghost b = bytes@;
        let text = match utf8_string(bytes) {
            None => {
                return None;
            },
            Some(t) => t,
        };
        let ls = lines(text.as_str());
        let ghost all = views(ls@);
        let ghost pred = |l: Seq<char>| is_sample(l);
        let mut out: Vec<StatsLine> = Vec::new();
        let mut i: usize = 0;
        while i < ls.len()
            invariant
                i <= ls.len(),
                all == views(ls@),
                all == lines_of(decode_utf8(b)),
                pred == (|l: Seq<char>| is_sample(l)),
                out@.len() == all.take(i as int).filter(pred).len(),
                forall|j: int|
                    0 <= j < out@.len() ==> Some((#[trigger] out@[j]).secs) == parse_i64_spec(
                        words_of(all.take(i as int).filter(pred)[j])[0],
                    ) && out@[j].tps@ == words_of(all.take(i as int).filter(pred)[j])[1]
                        && views(out@[j].players@) == players_of(all.take(i as int).filter(pred)[j]),
            decreases ls.len() - i,
        {
            let ghost prev = all.take(i as int).filter(pred);
            let parsed = parse_stats_line(ls[i].as_str());
            proof {
                reveal_with_fuel(Seq::filter, 1);
                assert(all.take(i as int + 1).drop_last() =~= all.take(i as int));
                assert(all.take(i as int + 1).last() == ls@[i as int]@);
            }
            match parsed {
                Some(s) => {
                    out.push(s);
                    proof {
                        let next = all.take(i as int + 1).filter(pred);
                        assert(next == prev.push(ls@[i as int]@));
                        assert forall|j: int| 0 <= j < out@.len() implies Some((#[trigger] out@[j]).secs) == parse_i64_spec(
                            words_of(next[j])[0],
                        ) && out@[j].tps@ == words_of(next[j])[1]
                            && views(out@[j].players@) == players_of(next[j]) by {
                            if j < prev.len() {
                                assert(next[j] == prev[j]);
                            }
                        }
                    }
                },
                None => {},
            }
            i += 1;
        }
        proof {
            assert(all.take(ls.len() as int) =~= all);
        }
        Some(out)
    }
}

} // verus!
