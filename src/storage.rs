use vstd::prelude::*;
use vstd::string::StringExecFns;
use crate::clock::{hour_label, hour_label_string, hour_of, hour_of_day};
use crate::session::AppSession;

verus! {

/// The chart column a category counts under: productivity, entertainment,
/// or everything else (utilities).
pub open spec fn kind_of(category: Seq<char>) -> int {
    if category == "productivity"@ {
        2
    } else if category == "entertainment"@ {
        1
    } else {
        0
    }
}

/// The minutes that the sessions of `v` started in hour `h` with category
/// column `kind` contribute: each session counts whole, under its start hour.
pub open spec fn bucket_minutes(v: Seq<AppSession>, h: int, kind: int) -> int
    decreases v.len(),
{
    if v.len() == 0 {
        0
    } else {
        let s = v.last();
        bucket_minutes(v.drop_last(), h, kind) + if hour_of(s.start_time) == h && kind_of(s.category@) == kind {
            s.total_seconds as int / 60
        } else {
            0
        }
    }
}

/// The whole minutes of all sessions of `v`, each counted on its own.
pub open spec fn total_minutes(v: Seq<AppSession>) -> int
    decreases v.len(),
{
    if v.len() == 0 {
        0
    } else {
        total_minutes(v.drop_last()) + v.last().total_seconds as int / 60
    }
}

proof fn lemma_bucket_within_total(v: Seq<AppSession>, h: int, kind: int)
    ensures
        0 <= bucket_minutes(v, h, kind) <= total_minutes(v),
    decreases v.len(),
{
    if v.len() > 0 {
        lemma_bucket_within_total(v.drop_last(), h, kind);
    }
}

proof fn lemma_total_of_prefix(v: Seq<AppSession>, i: int)
    requires
        0 <= i <= v.len(),
    ensures
        total_minutes(v.subrange(0, i)) <= total_minutes(v),
    decreases v.len() - i,
{
    if i < v.len() {
        lemma_total_of_prefix(v, i + 1);
        assert(v.subrange(0, i + 1).drop_last() =~= v.subrange(0, i));
    } else {
        assert(v.subrange(0, i) =~= v);
    }
}

/// The 24 hourly rows of a day's chart from that day's sessions: for each
/// hour its two-digit label, then the minutes of utilities, entertainment
/// and productivity. A session counts whole under the hour it started in,
/// also where it ran into later hours.
pub fn get_hourly_data_for_date(sessions: &Vec<AppSession>) -> (r: Vec<(String, u64, u64, u64)>)
    requires
        total_minutes(sessions@) <= u64::MAX,
    ensures
        r@.len() == 24,
        forall|h: int| 0 <= h < 24 ==> {
            &&& (#[trigger] r@[h]).0@ == hour_label(h)
            &&& r@[h].1 == bucket_minutes(sessions@, h, 0)
            &&& r@[h].2 == bucket_minutes(sessions@, h, 1)
            &&& r@[h].3 == bucket_minutes(sessions@, h, 2)
        },
{
    let mut util: Vec<u64> = Vec::new();
    let mut fun: Vec<u64> = Vec::new();
    let mut prod: Vec<u64> = Vec::new();
    let mut h: usize = 0;
    while h < 24
        invariant
            h <= 24,
            util@.len() == h && fun@.len() == h && prod@.len() == h,
            forall|k: int| 0 <= k < h ==> util@[k] == 0 && fun@[k] == 0 && prod@[k] == 0,
        decreases 24 - h,
    {
        util.push(0);
        fun.push(0);
        prod.push(0);
        h = h + 1;
    }
    let productivity = String::from_str("productivity");
    let entertainment = String::from_str("entertainment");
    proof {
        reveal_strlit("productivity");
        reveal_strlit("entertainment");
    }
    let mut i: usize = 0;
    while i < sessions.len()
        invariant
            i <= sessions@.len(),
            total_minutes(sessions@) <= u64::MAX,
            productivity@ == "productivity"@,
            entertainment@ == "entertainment"@,
            util@.len() == 24 && fun@.len() == 24 && prod@.len() == 24,
            forall|k: int| 0 <= k < 24 ==> #[trigger] util@[k] == bucket_minutes(sessions@.subrange(0, i as int), k, 0),
            forall|k: int| 0 <= k < 24 ==> #[trigger] fun@[k] == bucket_minutes(sessions@.subrange(0, i as int), k, 1),
            forall|k: int| 0 <= k < 24 ==> #[trigger] prod@[k] == bucket_minutes(sessions@.subrange(0, i as int), k, 2),
        decreases sessions@.len() - i,
    {
        let ghost pre = sessions@.subrange(0, i as int);
        let ghost next = sessions@.subrange(0, i + 1);
        proof {
            assert(next.drop_last() =~= pre);
            assert(next.last() == sessions@[i as int]);
            lemma_total_of_prefix(sessions@, i + 1);
        }
        let s = &sessions[i];
        let hs = hour_of_day(s.start_time);
        let minutes = s.total_seconds / 60;
        if s.category == productivity {
            proof {
                assert(kind_of(s.category@) == 2);
                lemma_bucket_within_total(next, hs as int, 2);
                assert(bucket_minutes(next, hs as int, 2) == bucket_minutes(pre, hs as int, 2) + minutes);
            }
            let x = prod[hs] + minutes;
            prod.set(hs, x);
        } else if s.category == entertainment {
            proof {
                assert(s.category@ != "productivity"@);
                assert(kind_of(s.category@) == 1);
                lemma_bucket_within_total(next, hs as int, 1);
                assert(bucket_minutes(next, hs as int, 1) == bucket_minutes(pre, hs as int, 1) + minutes);
            }
            let x = fun[hs] + minutes;
            fun.set(hs, x);
        } else {
            proof { lemma_bucket_within_total(next, hs as int, 0); }
            let x = util[hs] + minutes;
            util.set(hs, x);
        }
        i = i + 1;
    }
    assert(sessions@.subrange(0, i as int) =~= sessions@);
    let mut rows: Vec<(String, u64, u64, u64)> = Vec::new();
    let mut k: usize = 0;
    while k < 24
        invariant
            k <= 24,
            util@.len() == 24 && fun@.len() == 24 && prod@.len() == 24,
            rows@.len() == k,
            forall|j: int| 0 <= j < k ==> {
                &&& (#[trigger] rows@[j]).0@ == hour_label(j)
                &&& rows@[j].1 == util@[j]
                &&& rows@[j].2 == fun@[j]
                &&& rows@[j].3 == prod@[j]
            },
        decreases 24 - k,
    {
        rows.push((hour_label_string(k), util[k], fun[k], prod[k]));
        k = k + 1;
    }
    rows
}

/// Whether the whole minutes of all sessions fit in a `u64`, which the
/// hourly aggregate needs.
pub fn minutes_fit(sessions: &Vec<AppSession>) -> (r: bool)
    ensures
        r == (total_minutes(sessions@) <= u64::MAX),
{
    let mut sum: u64 = 0;
    let mut i: usize = 0;
    while i < sessions.len()
        invariant
            i <= sessions@.len(),
            sum == total_minutes(sessions@.subrange(0, i as int)),
        decreases sessions@.len() - i,
    {
        proof {
            assert(sessions@.subrange(0, i + 1).drop_last() =~= sessions@.subrange(0, i as int));
            lemma_total_of_prefix(sessions@, i + 1);
        }
        match sum.checked_add(sessions[i].total_seconds / 60) {
            Some(x) => sum = x,
            None => return false,
        }
        i = i + 1;
    }
    assert(sessions@.subrange(0, i as int) =~= sessions@);
    true
}

/// The name of the log file that holds the sessions of a calendar day.
pub fn partition_file_name(date: &String) -> (r: String)
    ensures
        r@ == "sessions_"@ + date@ + ".jsonl"@,
{
    let mut name = String::from_str("sessions_");
    name.append(date.as_str());
    name.append(".jsonl");
    name
}

/// The bytes that `str::trim` removes from either end of an ASCII line.
pub open spec fn is_space(b: u8) -> bool {
    b == 9 || b == 10 || b == 11 || b == 12 || b == 13 || b == 32
}

/// A line that holds nothing but spaces: it is no record.
pub open spec fn blank(line: Seq<u8>) -> bool {
    forall|i: int| 0 <= i < line.len() ==> is_space(#[trigger] line[i])
}

/// Reading a log from the start: the records of the lines already ended,
/// and the bytes of the line under way.
pub open spec fn scan(log: Seq<u8>) -> (Seq<Seq<u8>>, Seq<u8>)
    decreases log.len(),
{
    if log.len() == 0 {
        (Seq::empty(), Seq::empty())
    } else {
        let (done, cur) = scan(log.drop_last());
        if log.last() == 10 {
            if blank(cur) {
                (done, Seq::empty())
            } else {
                (done.push(cur), Seq::empty())
            }
        } else {
            (done, cur.push(log.last()))
        }
    }
}

/// The records of a log: its lines, split at each newline byte, without the
/// blank ones, in order.
pub open spec fn records(log: Seq<u8>) -> Seq<Seq<u8>> {
    let (done, cur) = scan(log);
    if blank(cur) {
        done
    } else {
        done.push(cur)
    }
}

fn is_blank(line: &Vec<u8>) -> (r: bool)
    ensures
        r == blank(line@),
{
    let mut i: usize = 0;
    while i < line.len()
        invariant
            i <= line@.len(),
            forall|k: int| 0 <= k < i ==> is_space(#[trigger] line@[k]),
        decreases line@.len() - i,
    {
        let b = line[i];
        if !(b == 9 || b == 10 || b == 11 || b == 12 || b == 13 || b == 32) {
            return false;
        }
        i = i + 1;
    }
    true
}

/// Splits the contents of a day's log into its records, one per non-blank
/// line. Each record is handed back as its bytes, to be decoded on its own.
pub fn split_records(log: &[u8]) -> (r: Vec<Vec<u8>>)
    ensures
        r@.len() == records(log@).len(),
        forall|k: int| 0 <= k < r@.len() ==> (#[trigger] r@[k])@ == records(log@)[k],
{
    let mut out: Vec<Vec<u8>> = Vec::new();
    let mut cur: Vec<u8> = Vec::new();
    let mut i: usize = 0;
    while i < log.len()
        invariant
            i <= log@.len(),
            out@.len() == scan(log@.subrange(0, i as int)).0.len(),
            forall|k: int| 0 <= k < out@.len() ==> (#[trigger] out@[k])@ == scan(log@.subrange(0, i as int)).0[k],
            cur@ == scan(log@.subrange(0, i as int)).1,
        decreases log@.len() - i,
    {
        proof {
            assert(log@.subrange(0, i + 1).drop_last() =~= log@.subrange(0, i as int));
        }
        let b = log[i];
        if b == 10 {
            if !is_blank(&cur) {
                out.push(cur);
            }
            cur = Vec::new();
        } else {
            cur.push(b);
        }
        i = i + 1;
    }
    assert(log@.subrange(0, i as int) =~= log@);
    if !is_blank(&cur) {
        out.push(cur);
    }
    out
}

/// The bytes appended to a day's log for one encoded record: the record,
/// then a newline.
pub fn frame_record(record: &[u8]) -> (r: Vec<u8>)
    ensures
        r@ == record@.push(10),
{
    let mut out: Vec<u8> = Vec::new();
    let mut i: usize = 0;
    while i < record.len()
        invariant
            i <= record@.len(),
            out@ == record@.subrange(0, i as int),
        decreases record@.len() - i,
    {
        out.push(record[i]);
        i = i + 1;
        assert(out@ =~= record@.subrange(0, i as int));
    }
    out.push(10);
    assert(out@ =~= record@.push(10));
    out
}

proof fn lemma_scan_within_line(log: Seq<u8>, line: Seq<u8>, k: int)
    requires
        scan(log).1.len() == 0,
        0 <= k <= line.len(),
        forall|i: int| 0 <= i < line.len() ==> #[trigger] line[i] != 10,
    ensures
        scan(log + line.subrange(0, k)) == (scan(log).0, line.subrange(0, k)),
    decreases k,
{
    if k == 0 {
        assert(log + line.subrange(0, 0) =~= log);
        assert(line.subrange(0, 0) =~= scan(log).1);
    } else {
        lemma_scan_within_line(log, line, k - 1);
        let whole = log + line.subrange(0, k);
        assert(whole.drop_last() =~= log + line.subrange(0, k - 1));
        assert(whole.last() == line[k - 1]);
        assert(line.subrange(0, k - 1).push(line[k - 1]) =~= line.subrange(0, k));
    }
}

/// Appending one framed record to a log whose lines are all ended, then
/// reading the log back, gives the records read before and the new record
/// last: what `save` writes, a load of the same day finds.
pub proof fn lemma_append_then_read(log: Seq<u8>, record: Seq<u8>)
    requires
        log.len() == 0 || log.last() == 10,
        !blank(record),
        forall|i: int| 0 <= i < record.len() ==> #[trigger] record[i] != 10,
    ensures
        records(log + record.push(10)) == records(log).push(record),
{
    assert(scan(log).1.len() == 0) by {
        if log.len() > 0 {
            let (done, cur) = scan(log.drop_last());
            assert(scan(log) == (if blank(cur) { (done, Seq::<u8>::empty()) } else { (done.push(cur), Seq::<u8>::empty()) }));
        }
    }
    assert(blank(scan(log).1));
    lemma_scan_within_line(log, record, record.len() as int);
    assert(record.subrange(0, record.len() as int) =~= record);
    let whole = log + record.push(10);
    assert(whole.drop_last() =~= log + record);
    assert(whole.last() == 10);
    assert(blank(Seq::<u8>::empty()));
}

} // verus!
