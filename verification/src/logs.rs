//! Log correlation: classify log lines, keep a "most recent timestamp"
//! cursor per file, recognize model-load events by their embedded content
//! hash, and aggregate per-name usage statistics.

use vstd::prelude::*;

use chrono::TimeZone;

use crate::ascii::{
    deleted_tail, deleted_tail_bytes, load_marker, load_marker_bytes, sha256_token,
    sha256_token_bytes, time_key, time_key_bytes,
};
use crate::bytes::{find_sub, is_prefix, occurs_at, starts_with};
use crate::manifest::{spec_lookup, views_of, ModelIndex};

verus! {

/// The epoch milliseconds denoted by an RFC 3339 date-time with offset,
/// when the bytes parse as one. The text carries its own offset, so the
/// result is a function of the bytes alone.
pub uninterp spec fn rfc3339_millis_of(s: Seq<u8>) -> Option<i64>;

/// Relies on chrono::DateTime::parse_from_rfc3339 and
/// DateTime::timestamp_millis: the parsed instant carries its own offset,
/// so the epoch milliseconds depend on the text alone.
#[verifier::external_body]
fn parse_rfc3339_millis(s: &[u8]) -> (r: Option<i64>)
    ensures
        r == rfc3339_millis_of(s@),
{
    let text = core::str::from_utf8(s).ok()?;
    let dt = chrono::DateTime::parse_from_rfc3339(text).ok()?;
    Some(dt.timestamp_millis())
}

/// Relies on chrono::NaiveDateTime::parse_from_str and
/// chrono::TimeZone::from_local_datetime: the text is read as a civil
/// time in the machine's local time zone, so the instant depends on that
/// zone; text that does not parse, or denotes a nonexistent local time,
/// yields None.
#[verifier::external_body]
fn parse_slash_datetime_millis(s: &[u8]) -> (r: Option<i64>)
{
    let text = core::str::from_utf8(s).ok()?;
    let naive = chrono::NaiveDateTime::parse_from_str(text, "%Y/%m/%d %H:%M:%S").ok()?;
    let dt = chrono::Local.from_local_datetime(&naive).earliest()?;
    Some(dt.timestamp_millis())
}

/// A line begins with the `time=` key.
pub open spec fn is_time_line(l: Seq<u8>) -> bool {
    is_prefix(l, time_key())
}

/// A line has the fixed-width slash-date shape: more than 19 bytes, with
/// `/` at positions 4 and 7.
pub open spec fn has_slash_date_shape(l: Seq<u8>) -> bool {
    l.len() > 19 && l[4] == 47 && l[7] == 47
}

/// An ASCII lowercase hex digit.
pub open spec fn is_lower_hex(b: u8) -> bool {
    (48 <= b && b <= 57) || (97 <= b && b <= 102)
}

/// `i` is the first occurrence of `p` in `s`.
pub open spec fn first_occurrence(s: Seq<u8>, p: Seq<u8>, i: int) -> bool {
    occurs_at(s, p, i) && forall|j: int| 0 <= j < i ==> !occurs_at(s, p, j)
}

/// The load-event hash of a line: the line must contain the model-load
/// marker and a `sha256-` token followed by 64 lowercase hex bytes at the
/// token's first occurrence; otherwise the line carries no event.
pub open spec fn spec_load_event_hash(l: Seq<u8>) -> Option<Seq<u8>> {
    if exists|k: int| occurs_at(l, load_marker(), k) {
        if exists|i: int| first_occurrence(l, sha256_token(), i) {
            let i = choose|i: int| first_occurrence(l, sha256_token(), i);
            let start = i + sha256_token().len();
            if start + 64 <= l.len() && (forall|j: int|
                start <= j < start + 64 ==> is_lower_hex(l[j])) {
                Some(l.subrange(start, start + 64))
            } else {
                None
            }
        } else {
            None
        }
    } else {
        None
    }
}

/// What one log line does to the correlation state.
pub enum LineEffect {
    /// The timestamp cursor moves to this instant.
    Stamp(i64),
    /// A load event for this bare content hash.
    Load(Vec<u8>),
    /// Nothing changes.
    Skip,
}

proof fn lemma_first_occurrence_unique(s: Seq<u8>, p: Seq<u8>, i: int, j: int)
    requires
        first_occurrence(s, p, i),
        first_occurrence(s, p, j),
    ensures
        i == j,
{
}

/// Extract the load-event hash from a line, if the line carries one.
pub fn extract_load_hash(line: &[u8]) -> (r: Option<Vec<u8>>)
    ensures
        match r {
            Some(h) => spec_load_event_hash(line@) == Some(h@) && h@.len() == 64,
            None => spec_load_event_hash(line@) is None,
        },
{
    let marker = load_marker_bytes();
    if find_sub(line, marker.as_slice()).is_none() {
        assert(forall|k: int| !occurs_at(line@, load_marker(), k));
        return None;
    }
    let token = sha256_token_bytes();
    let n = line.len();
    match find_sub(line, token.as_slice()) {
        Some(i) => {
            proof {
                assert(first_occurrence(line@, sha256_token(), i as int));
                let w = choose|w: int| first_occurrence(line@, sha256_token(), w);
                lemma_first_occurrence_unique(line@, sha256_token(), w, i as int);
            }
            assert(i + token@.len() <= n);
            let start = i + token.len();
            if n < 64 || start > n - 64 {
                assert(start + 64 > line@.len());
                return None;
            }
            let mut j: usize = 0;
            while j < 64
                invariant
                    j <= 64,
                    n == line@.len(),
                    start + 64 <= n,
                    spec_load_event_hash(line@) == (if start + 64 <= line@.len() && (
                    forall|k: int| start <= k < start + 64 ==> is_lower_hex(line@[k])) {
                        Some(line@.subrange(start as int, start + 64))
                    } else {
                        None::<Seq<u8>>
                    }),
                    forall|k: int| start <= k < start + j ==> is_lower_hex(line@[k]),
                decreases 64 - j,
            {
                let b = line[start + j];
                if !((48 <= b && b <= 57) || (97 <= b && b <= 102)) {
                    assert(!is_lower_hex(line@[start + j]));
                    return None;
                }
                j += 1;
            }
            let h = vstd::slice::slice_subrange(line, start, start + 64);
            Some(vstd::slice::slice_to_vec(h))
        },
        None => {
            assert(forall|i: int| !first_occurrence(line@, sha256_token(), i));
            None
        },
    }
}

/// Classify one log line, in the priority order of the correlator: a
/// `time=` line moves the cursor when its payload parses as RFC 3339; a
/// slash-date line moves the cursor when it parses as a local civil time;
/// any other line is a load event exactly when it carries the marker and
/// a well-formed hash token.
pub fn classify_line(line: &[u8]) -> (r: LineEffect)
    ensures
        is_time_line(line@) ==> match r {
            LineEffect::Stamp(t) => rfc3339_millis_of(
                line@.skip(time_key().len() as int),
            ) == Some(t),
            LineEffect::Skip => rfc3339_millis_of(line@.skip(time_key().len() as int)) is None,
            LineEffect::Load(_) => false,
        },
        !is_time_line(line@) && has_slash_date_shape(line@) ==> !(r is Load),
        !is_time_line(line@) && !has_slash_date_shape(line@) ==> match r {
            LineEffect::Load(h) => spec_load_event_hash(line@) == Some(h@) && h@.len() == 64,
            LineEffect::Skip => spec_load_event_hash(line@) is None,
            LineEffect::Stamp(_) => false,
        },
{
    let key = time_key_bytes();
    if starts_with(line, key.as_slice()) {
        let payload = vstd::slice::slice_subrange(line, key.len(), line.len());
        assert(payload@ =~= line@.skip(time_key().len() as int));
        match parse_rfc3339_millis(payload) {
            Some(t) => LineEffect::Stamp(t),
            None => LineEffect::Skip,
        }
    } else if line.len() > 19 && line[4] == 47 && line[7] == 47 {
        let head = vstd::slice::slice_subrange(line, 0, 19);
        match parse_slash_datetime_millis(head) {
            Some(t) => LineEffect::Stamp(t),
            None => LineEffect::Skip,
        }
    } else {
        match extract_load_hash(line) {
            Some(h) => LineEffect::Load(h),
            None => LineEffect::Skip,
        }
    }
}

/// The synthetic display name for a hash with no manifest: its first
/// eight hex characters followed by `...-deleted`.
pub open spec fn spec_fallback_name(h: Seq<u8>) -> Seq<u8> {
    h.take(8) + deleted_tail()
}

/// The (name, size) a load event is attributed to: the index entry for
/// the hash, or the synthetic deleted name with size 0.
pub open spec fn spec_resolve(idx: Seq<(Seq<u8>, Seq<u8>, u64)>, h: Seq<u8>) -> (Seq<u8>, u64) {
    match spec_lookup(idx, h) {
        Some(p) => p,
        None => (spec_fallback_name(h), 0u64),
    }
}

/// Resolve a load event's hash to a display name and size.
pub fn resolve_hash(index: &ModelIndex, hash: &[u8]) -> (r: (Vec<u8>, u64))
    requires
        hash@.len() >= 8,
    ensures
        (r.0@, r.1) == spec_resolve(index.view_entries(), hash@),
{
    match index.lookup(hash) {
        Some(p) => p,
        None => {
            let head = vstd::slice::slice_subrange(hash, 0, 8);
            let mut name = vstd::slice::slice_to_vec(head);
            let mut tail = deleted_tail_bytes();
            name.append(&mut tail);
            assert(name@ =~= spec_fallback_name(hash@));
            (name, 0)
        },
    }
}

/// One aggregated usage record: a display name, the most recent load
/// instant, the number of loads, and the resolved size.
pub struct ModelUsage {
    pub name: Vec<u8>,
    pub last_used: i64,
    pub usage_count: u64,
    pub size: u64,
}

impl View for ModelUsage {
    type V = (Seq<u8>, i64, u64, u64);

    open spec fn view(&self) -> Self::V {
        (self.name@, self.last_used, self.usage_count, self.size)
    }
}

impl Clone for ModelUsage {
    /// Cloning a usage record keeps its view.
    fn clone(&self) -> (r: Self)
        ensures
            r@ == self@,
    {
        ModelUsage {
            name: self.name.clone(),
            last_used: self.last_used,
            usage_count: self.usage_count,
            size: self.size,
        }
    }
}

/// The view of a sequence of usage records.
pub open spec fn usages_view(s: Seq<ModelUsage>) -> Seq<(Seq<u8>, i64, u64, u64)> {
    s.map_values(|u: ModelUsage| u@)
}

/// A usage count one higher, stopping at the machine's limit.
pub open spec fn sat_inc(c: u64) -> u64 {
    if c < u64::MAX {
        (c + 1) as u64
    } else {
        c
    }
}

/// The last-used instant after an event with the given cursor: raised to
/// the cursor when the cursor holds a strictly later instant.
pub open spec fn bump_last_used(prev: i64, cursor: Option<i64>) -> i64 {
    match cursor {
        Some(t) => if t > prev {
            t
        } else {
            prev
        },
        None => prev,
    }
}

/// The usage table after one load event attributed to `name` with size
/// `size`: an existing record for the name has its count incremented and
/// its last-used raised to the cursor; otherwise a new record starts at
/// count 1, timed at the cursor, or at the file's modification time when
/// no timestamp line has been seen yet.
pub open spec fn spec_record_event(
    s: Seq<(Seq<u8>, i64, u64, u64)>,
    name: Seq<u8>,
    size: u64,
    cursor: Option<i64>,
    file_time: i64,
) -> Seq<(Seq<u8>, i64, u64, u64)>
    decreases s.len(),
{
    if s.len() == 0 {
        seq![(name, bump_last_used(cursor_start(cursor, file_time), cursor), 1u64, size)]
    } else if s[0].0 == name {
        seq![(name, bump_last_used(s[0].1, cursor), sat_inc(s[0].2), s[0].3)] + s.drop_first()
    } else {
        seq![s[0]] + spec_record_event(s.drop_first(), name, size, cursor, file_time)
    }
}

/// The instant a fresh record starts at: the cursor if one has been set,
/// else the file's modification time.
pub open spec fn cursor_start(cursor: Option<i64>, file_time: i64) -> i64 {
    match cursor {
        Some(t) => t,
        None => file_time,
    }
}

proof fn lemma_record_event_at(
    s: Seq<(Seq<u8>, i64, u64, u64)>,
    name: Seq<u8>,
    size: u64,
    cursor: Option<i64>,
    file_time: i64,
    i: int,
)
    requires
        0 <= i < s.len(),
        s[i].0 == name,
        forall|j: int| 0 <= j < i ==> s[j].0 != name,
    ensures
        spec_record_event(s, name, size, cursor, file_time) =~= s.update(
            i,
            (name, bump_last_used(s[i].1, cursor), sat_inc(s[i].2), s[i].3),
        ),
    decreases s.len(),
{
    if i == 0 {
        assert(seq![(name, bump_last_used(s[0].1, cursor), sat_inc(s[0].2), s[0].3)]
            + s.drop_first() =~= s.update(
            0,
            (name, bump_last_used(s[0].1, cursor), sat_inc(s[0].2), s[0].3),
        ));
    } else {
        lemma_record_event_at(s.drop_first(), name, size, cursor, file_time, i - 1);
        assert(seq![s[0]] + spec_record_event(s.drop_first(), name, size, cursor, file_time)
            =~= s.update(i, (name, bump_last_used(s[i].1, cursor), sat_inc(s[i].2), s[i].3)));
    }
}

proof fn lemma_record_event_none(
    s: Seq<(Seq<u8>, i64, u64, u64)>,
    name: Seq<u8>,
    size: u64,
    cursor: Option<i64>,
    file_time: i64,
)
    requires
        forall|j: int| 0 <= j < s.len() ==> s[j].0 != name,
    ensures
        spec_record_event(s, name, size, cursor, file_time) =~= s.push(
            (name, bump_last_used(cursor_start(cursor, file_time), cursor), 1u64, size),
        ),
    decreases s.len(),
{
    if s.len() > 0 {
        lemma_record_event_none(s.drop_first(), name, size, cursor, file_time);
        assert(seq![s[0]] + spec_record_event(s.drop_first(), name, size, cursor, file_time)
            =~= s.push(
            (name, bump_last_used(cursor_start(cursor, file_time), cursor), 1u64, size),
        ));
    }
}

/// The aggregated usage records, keyed by resolved display name.
pub struct UsageTable {
    pub entries: Vec<ModelUsage>,
}

impl UsageTable {
    /// Names are unique, and every record has seen at least one load.
    pub open spec fn wf(&self) -> bool {
        &&& forall|i: int, j: int|
            0 <= i < j < self.entries@.len() ==> self.entries@[i].name@ != self.entries@[j].name@
        &&& forall|i: int| 0 <= i < self.entries@.len() ==> self.entries@[i].usage_count >= 1
    }

    /// The view of the table.
    pub open spec fn view_entries(&self) -> Seq<(Seq<u8>, i64, u64, u64)> {
        usages_view(self.entries@)
    }

    /// An empty table.
    pub fn new() -> (r: UsageTable)
        ensures
            r.wf(),
            r.view_entries() =~= Seq::<(Seq<u8>, i64, u64, u64)>::empty(),
    {
        UsageTable { entries: Vec::new() }
    }

    fn find_pos(&self, name: &[u8]) -> (r: Option<usize>)
        ensures
            match r {
                Some(i) => i < self.entries@.len() && self.entries@[i as int].name@ == name@
                    && forall|j: int| 0 <= j < i ==> self.entries@[j].name@ != name@,
                None => forall|j: int|
                    0 <= j < self.entries@.len() ==> self.entries@[j].name@ != name@,
            },
    {
        let mut i: usize = 0;
        while i < self.entries.len()
            invariant
                i <= self.entries@.len(),
                forall|j: int| 0 <= j < i ==> self.entries@[j].name@ != name@,
            decreases self.entries@.len() - i,
        {
            if crate::bytes::bytes_eq(self.entries[i].name.as_slice(), name) {
                return Some(i);
            }
            i += 1;
        }
        None
    }

    /// Record one load event attributed to `name`.
    pub fn record_event(&mut self, name: Vec<u8>, size: u64, cursor: Option<i64>, file_time: i64)
        requires
            old(self).wf(),
        ensures
            final(self).wf(),
            final(self).view_entries() == spec_record_event(
                old(self).view_entries(),
                name@,
                size,
                cursor,
                file_time,
            ),
            final(self).entries@.len() >= old(self).entries@.len(),
            forall|i: int|
                0 <= i < old(self).entries@.len() ==> {
                    &&& final(self).entries@[i].name@ == old(self).entries@[i].name@
                    &&& final(self).entries@[i].usage_count >= old(self).entries@[i].usage_count
                    &&& final(self).entries@[i].last_used >= old(self).entries@[i].last_used
                    &&& final(self).entries@[i].size == old(self).entries@[i].size
                },
    {
        let ghost pre = self.view_entries();
        match self.find_pos(name.as_slice()) {
            Some(i) => {
                proof {
                    lemma_record_event_at(pre, name@, size, cursor, file_time, i as int);
                }
                let mut e = self.entries.remove(i);
                if e.usage_count < u64::MAX {
                    e.usage_count = e.usage_count + 1;
                }
                match cursor {
                    Some(t) => {
                        if t > e.last_used {
                            e.last_used = t;
                        }
                    },
                    None => {},
                }
                self.entries.insert(i, e);
                proof {
                    assert(self.entries@ =~= old(self).entries@.update(
                        i as int,
                        self.entries@[i as int],
                    ));
                    assert(self.view_entries() =~= spec_record_event(
                        pre,
                        name@,
                        size,
                        cursor,
                        file_time,
                    ));
                }
            },
            None => {
                proof {
                    lemma_record_event_none(pre, name@, size, cursor, file_time);
                }
                let start = match cursor {
                    Some(t) => t,
                    None => file_time,
                };
                self.entries.push(
                    ModelUsage { name, last_used: start, usage_count: 1, size },
                );
                proof {
                    assert(self.view_entries() =~= spec_record_event(
                        pre,
                        name@,
                        size,
                        cursor,
                        file_time,
                    ));
                }
            },
        }
    }

    /// Correlate one log file's lines, in order, against the index: the
    /// result is the fold of `spec_correlate` over the lines. The instants
    /// that slash-date lines denote depend on the machine's time zone, so
    /// they enter the specification as an existentially quantified
    /// sequence; on lines without a slash-date the result is a function of
    /// the bytes alone. Existing records only grow: counts and last-used
    /// instants never go down, names and sizes stay, and no record is
    /// removed.
    pub fn correlate_file(&mut self, index: &ModelIndex, lines: &Vec<Vec<u8>>, file_time: i64)
        requires
            old(self).wf(),
        ensures
            final(self).wf(),
            exists|stamps: Seq<Option<i64>>|
                final(self).view_entries() == #[trigger] spec_correlate(
                    old(self).view_entries(),
                    index.view_entries(),
                    views_of(lines@),
                    stamps,
                    file_time,
                ),
            final(self).entries@.len() >= old(self).entries@.len(),
            forall|i: int|
                0 <= i < old(self).entries@.len() ==> {
                    &&& final(self).entries@[i].name@ == old(self).entries@[i].name@
                    &&& final(self).entries@[i].usage_count >= old(self).entries@[
                        i
                    ].usage_count
                    &&& final(self).entries@[i].last_used >= old(self).entries@[i].last_used
                    &&& final(self).entries@[i].size == old(self).entries@[i].size
                },
    {
        let ghost s0 = self.view_entries();
        let ghost idxv = index.view_entries();
        let ghost lv = views_of(lines@);
        let ghost mut stamps: Seq<Option<i64>> = Seq::empty();
        let mut cursor: Option<i64> = None;
        let mut k: usize = 0;
        while k < lines.len()
            invariant
                self.wf(),
                k <= lines@.len(),
                s0 == old(self).view_entries(),
                idxv == index.view_entries(),
                lv == views_of(lines@),
                stamps.len() == k,
                self.view_entries() == spec_correlate_state(
                    s0,
                    idxv,
                    lv.take(k as int),
                    stamps,
                    file_time,
                ).0,
                cursor == spec_correlate_state(s0, idxv, lv.take(k as int), stamps, file_time).1,
                self.entries@.len() >= old(self).entries@.len(),
                forall|i: int|
                    0 <= i < old(self).entries@.len() ==> {
                        &&& self.entries@[i].name@ == old(self).entries@[i].name@
                        &&& self.entries@[i].usage_count >= old(self).entries@[i].usage_count
                        &&& self.entries@[i].last_used >= old(self).entries@[i].last_used
                        &&& self.entries@[i].size == old(self).entries@[i].size
                    },
            decreases lines@.len() - k,
        {
            let ghost pre = spec_correlate_state(s0, idxv, lv.take(k as int), stamps, file_time);
            let ghost pre_stamps = stamps;
            assert(lines@[k as int]@ == lv[k as int]);
            let r = classify_line(lines[k].as_slice());
            let ghost stamp: Option<i64> = match r {
                LineEffect::Stamp(t) => Some(t),
                LineEffect::Load(_) => None,
                LineEffect::Skip => None,
            };
            proof {
                stamps = pre_stamps.push(stamp);
                lemma_correlate_stamps_extend(
                    s0,
                    idxv,
                    lv.take(k as int),
                    pre_stamps,
                    stamp,
                    file_time,
                );
                assert(lv.take(k + 1).drop_last() =~= lv.take(k as int));
                assert(lv.take(k + 1).last() == lv[k as int]);
                assert(stamps[k as int] == stamp);
            }
            match r {
                LineEffect::Stamp(t) => {
                    cursor = Some(t);
                },
                LineEffect::Load(h) => {
                    assert(spec_load_event_hash(lv[k as int]) == Some(h@));
                    let (name, size) = resolve_hash(index, h.as_slice());
                    self.record_event(name, size, cursor, file_time);
                },
                LineEffect::Skip => {},
            }
            proof {
                let post = spec_correlate_state(s0, idxv, lv.take(k + 1), stamps, file_time);
                assert(post.0 == spec_line_table(pre.0, idxv, pre.1, lv[k as int], file_time));
                assert(post.1 == spec_line_cursor(pre.1, lv[k as int], stamp));
                assert(self.view_entries() == post.0);
                assert(cursor == post.1);
            }
            k += 1;
        }
        proof {
            assert(lv.take(lines@.len() as int) =~= lv);
            assert(self.view_entries() == spec_correlate(s0, idxv, lv, stamps, file_time));
        }
    }
}

/// The cursor after one log line: a `time=` line moves it to the instant
/// its payload denotes in RFC 3339 form, when the payload parses; a
/// slash-date line moves it to the instant the line denotes in the
/// machine's time zone (handed in as `stamp`), when there is one; any
/// other line leaves it alone.
pub open spec fn spec_line_cursor(cursor: Option<i64>, l: Seq<u8>, stamp: Option<i64>) -> Option<
    i64,
> {
    if is_time_line(l) {
        match rfc3339_millis_of(l.skip(time_key().len() as int)) {
            Some(t) => Some(t),
            None => cursor,
        }
    } else if has_slash_date_shape(l) {
        match stamp {
            Some(t) => Some(t),
            None => cursor,
        }
    } else {
        cursor
    }
}

/// The usage records after one log line: a line that is neither a
/// timestamp nor slash-shaped and carries a load event records that event
/// under the (name, size) the index resolves its hash to; any other line
/// changes nothing.
pub open spec fn spec_line_table(
    s: Seq<(Seq<u8>, i64, u64, u64)>,
    idx: Seq<(Seq<u8>, Seq<u8>, u64)>,
    cursor: Option<i64>,
    l: Seq<u8>,
    file_time: i64,
) -> Seq<(Seq<u8>, i64, u64, u64)> {
    if !is_time_line(l) && !has_slash_date_shape(l) {
        match spec_load_event_hash(l) {
            Some(h) => {
                let p = spec_resolve(idx, h);
                spec_record_event(s, p.0, p.1, cursor, file_time)
            },
            None => s,
        }
    } else {
        s
    }
}

/// The (usage records, cursor) state after folding a file's lines in
/// order, starting from records `s0` and an unset cursor. `stamps[k]`
/// gives the instant line `k` denotes when it is a slash-date line: that
/// value depends on the machine's time zone, so it is a parameter here.
pub open spec fn spec_correlate_state(
    s0: Seq<(Seq<u8>, i64, u64, u64)>,
    idx: Seq<(Seq<u8>, Seq<u8>, u64)>,
    lines: Seq<Seq<u8>>,
    stamps: Seq<Option<i64>>,
    file_time: i64,
) -> (Seq<(Seq<u8>, i64, u64, u64)>, Option<i64>)
    decreases lines.len(),
{
    if lines.len() == 0 {
        (s0, None)
    } else {
        let prev = spec_correlate_state(s0, idx, lines.drop_last(), stamps, file_time);
        let l = lines.last();
        let stamp = if lines.len() - 1 < stamps.len() {
            stamps[lines.len() - 1]
        } else {
            None
        };
        (
            spec_line_table(prev.0, idx, prev.1, l, file_time),
            spec_line_cursor(prev.1, l, stamp),
        )
    }
}

/// The usage records after correlating a whole file's lines.
pub open spec fn spec_correlate(
    s0: Seq<(Seq<u8>, i64, u64, u64)>,
    idx: Seq<(Seq<u8>, Seq<u8>, u64)>,
    lines: Seq<Seq<u8>>,
    stamps: Seq<Option<i64>>,
    file_time: i64,
) -> Seq<(Seq<u8>, i64, u64, u64)> {
    spec_correlate_state(s0, idx, lines, stamps, file_time).0
}

/// Stamps beyond the lines' length are never read: extending the stamp
/// sequence changes nothing of the fold.
proof fn lemma_correlate_stamps_extend(
    s0: Seq<(Seq<u8>, i64, u64, u64)>,
    idx: Seq<(Seq<u8>, Seq<u8>, u64)>,
    lines: Seq<Seq<u8>>,
    stamps: Seq<Option<i64>>,
    x: Option<i64>,
    file_time: i64,
)
    requires
        lines.len() <= stamps.len(),
    ensures
        spec_correlate_state(s0, idx, lines, stamps.push(x), file_time) == spec_correlate_state(
            s0,
            idx,
            lines,
            stamps,
            file_time,
        ),
    decreases lines.len(),
{
    if lines.len() > 0 {
        lemma_correlate_stamps_extend(s0, idx, lines.drop_last(), stamps, x, file_time);
        assert(stamps.push(x)[lines.len() - 1] == stamps[lines.len() - 1]);
    }
}

/// Law: on a file with no slash-date line, the correlation result does
/// not depend on the machine's time zone: any two stamp sequences yield
/// the same records and the same cursor.
pub proof fn lemma_correlate_zone_independent(
    s0: Seq<(Seq<u8>, i64, u64, u64)>,
    idx: Seq<(Seq<u8>, Seq<u8>, u64)>,
    lines: Seq<Seq<u8>>,
    stamps1: Seq<Option<i64>>,
    stamps2: Seq<Option<i64>>,
    file_time: i64,
)
    requires
        forall|k: int| 0 <= k < lines.len() ==> !has_slash_date_shape(lines[k]),
    ensures
        spec_correlate_state(s0, idx, lines, stamps1, file_time) == spec_correlate_state(
            s0,
            idx,
            lines,
            stamps2,
            file_time,
        ),
    decreases lines.len(),
{
    if lines.len() > 0 {
        lemma_correlate_zone_independent(s0, idx, lines.drop_last(), stamps1, stamps2, file_time);
        assert(!has_slash_date_shape(lines.last()));
    }
}

/// Law: three load events for one name at instants t1 < t2 < t3, seen in
/// file order t2, t1, t3, leave the record's last-used at t3 and its
/// usage count at 3, whatever table without that name they land in.
pub proof fn lemma_monotonic_aggregation(
    s0: Seq<(Seq<u8>, i64, u64, u64)>,
    name: Seq<u8>,
    size: u64,
    t1: i64,
    t2: i64,
    t3: i64,
    file_time: i64,
)
    requires
        t1 < t2 < t3,
        forall|j: int| 0 <= j < s0.len() ==> s0[j].0 != name,
    ensures
        spec_record_event(
            spec_record_event(
                spec_record_event(s0, name, size, Some(t2), file_time),
                name,
                size,
                Some(t1),
                file_time,
            ),
            name,
            size,
            Some(t3),
            file_time,
        ) =~= s0.push((name, t3, 3u64, size)),
{
    let n = s0.len() as int;
    lemma_record_event_none(s0, name, size, Some(t2), file_time);
    let s1 = spec_record_event(s0, name, size, Some(t2), file_time);
    assert(s1 =~= s0.push((name, t2, 1u64, size)));
    lemma_record_event_at(s1, name, size, Some(t1), file_time, n);
    let s2 = spec_record_event(s1, name, size, Some(t1), file_time);
    assert(s2 =~= s1.update(n, (name, t2, 2u64, size)));
    lemma_record_event_at(s2, name, size, Some(t3), file_time, n);
    let s3 = spec_record_event(s2, name, size, Some(t3), file_time);
    assert(s3 =~= s2.update(n, (name, t3, 3u64, size)));
    assert(s3 =~= s0.push((name, t3, 3u64, size)));
}

} // verus!
