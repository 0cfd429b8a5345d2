//! The output of scripts as it is shipped elsewhere: lines are collected, and
//! each batch of them is grouped by script and stream.
use crate::common::config::text_map;
use crate::names::NameMap;
use crate::text::{concat2, decimal_i64, same_text, signed_decimal, substring, to_chars};
use crate::time::Timestamp;
use vstd::prelude::*;

verus! {

/// How often a batch is shipped, in milliseconds.
pub const BATCH_FLUSH_INTERVAL_MS: u64 = 2000;

/// How many lines a batch holds.
pub const BATCH_MAX_SIZE: usize = 100;

/// How many lines may wait to be put into a batch.
pub const CHANNEL_CAPACITY: usize = 10_000;

/// A line that a script put out.
#[derive(Debug)]
pub struct LokiLogEntry {
    pub script: String,
    pub stream: String,
    pub timestamp: Timestamp,
    pub content: String,
}

/// Lines that have the same labels, each with its time.
#[derive(Debug)]
pub struct LokiStream {
    pub labels: NameMap<String>,
    pub values: Vec<(String, String)>,
}

/// The lines that wait to be shipped.
#[derive(Debug)]
pub struct LokiShipper {
    pub batch: Vec<LokiLogEntry>,
}

/// A text without the slashes at its end.
pub open spec fn without_slashes(s: Seq<char>) -> Seq<char>
    decreases s.len(),
{
    if s.len() > 0 && s.last() == '/' {
        without_slashes(s.drop_last())
    } else {
        s
    }
}

/// Where batches are shipped to.
pub fn push_url(url: &str) -> (r: String)
    ensures
        r@ == without_slashes(url@) + "/loki/api/v1/push"@,
{
    let chars = to_chars(url);
    let mut n: usize = chars.len();
    assert(url@.take(n as int) =~= url@);
    while n > 0 && chars[n - 1] == '/'
        invariant
            chars@ == url@,
            n <= chars@.len(),
            without_slashes(url@.take(n as int)) == without_slashes(url@),
        decreases n,
    {
        assert(url@.take(n as int).drop_last() =~= url@.take(n as int - 1));
        n = n - 1;
    }
    let base = substring(&chars, 0, n);
    assert(base@ =~= url@.take(n as int));
    concat2(base.as_str(), "/loki/api/v1/push")
}

/// What a line is grouped by.
pub open spec fn stream_key(entry: LokiLogEntry) -> (Seq<char>, Seq<char>) {
    (entry.script@, entry.stream@)
}

/// A line as it is shipped: its time in nanoseconds, or zero where these are
/// too many, and what it says.
pub open spec fn stream_value(entry: LokiLogEntry) -> (Seq<char>, Seq<char>) {
    (
        signed_decimal(
            if i64::MIN <= entry.timestamp.total() <= i64::MAX {
                entry.timestamp.total()
            } else {
                0
            },
        ),
        entry.content@,
    )
}

/// What some lines are grouped by, in the order in which it first occurs.
pub open spec fn stream_keys(entries: Seq<LokiLogEntry>) -> Seq<(Seq<char>, Seq<char>)>
    decreases entries.len(),
{
    if entries.len() == 0 {
        Seq::empty()
    } else {
        let front = stream_keys(entries.drop_last());
        let k = stream_key(entries.last());
        if front.contains(k) {
            front
        } else {
            front.push(k)
        }
    }
}

/// The lines of one group, in order.
pub open spec fn stream_values(
    entries: Seq<LokiLogEntry>,
    k: (Seq<char>, Seq<char>),
) -> Seq<(Seq<char>, Seq<char>)>
    decreases entries.len(),
{
    if entries.len() == 0 {
        Seq::empty()
    } else if stream_key(entries.last()) == k {
        stream_values(entries.drop_last(), k).push(stream_value(entries.last()))
    } else {
        stream_values(entries.drop_last(), k)
    }
}

/// The labels of a group, with further ones over them.
pub open spec fn stream_labels(
    k: (Seq<char>, Seq<char>),
    extra: Map<Seq<char>, Seq<char>>,
) -> Map<Seq<char>, Seq<char>> {
    Map::empty().insert("script"@, k.0).insert("stream"@, k.1).union_prefer_right(extra)
}

/// The texts of a list of pairs.
pub open spec fn value_texts(v: Seq<(String, String)>) -> Seq<(Seq<char>, Seq<char>)> {
    v.map_values(|p: (String, String)| (p.0@, p.1@))
}

/// Whether some groups are the ones of a batch.
pub open spec fn groups(
    streams: Seq<LokiStream>,
    entries: Seq<LokiLogEntry>,
    extra: Map<Seq<char>, Seq<char>>,
) -> bool {
    &&& streams.len() == stream_keys(entries).len()
    &&& forall|i: int|
        #![trigger streams[i]]
        0 <= i < streams.len() ==> streams[i].labels.wf() && text_map(streams[i].labels@)
            == stream_labels(stream_keys(entries)[i], extra) && value_texts(streams[i].values@)
            == stream_values(entries, stream_keys(entries)[i])
}

/// A group while it is put together.
struct Group {
    script: String,
    stream: String,
    values: Vec<(String, String)>,
}

impl Group {
    spec fn key(self) -> (Seq<char>, Seq<char>) {
        (self.script@, self.stream@)
    }
}

spec fn group_keys(groups: Seq<Group>) -> Seq<(Seq<char>, Seq<char>)> {
    groups.map_values(|g: Group| g.key())
}

/// What lines are grouped by occurs once.
pub proof fn law_each_group_is_one(entries: Seq<LokiLogEntry>)
    ensures
        stream_keys(entries).no_duplicates(),
        forall|i: int|
            0 <= i < entries.len() ==> stream_keys(entries).contains(
                stream_key(#[trigger] entries[i]),
            ),
    decreases entries.len(),
{
    if entries.len() > 0 {
        let front = entries.drop_last();
        law_each_group_is_one(front);
        let inner = stream_keys(front);
        let outer = stream_keys(entries);
        assert forall|i: int| 0 <= i < entries.len() implies outer.contains(
            stream_key(#[trigger] entries[i]),
        ) by {
            if i < front.len() {
                assert(front[i] == entries[i]);
                let j = inner.index_of(stream_key(front[i]));
                assert(outer[j] == stream_key(entries[i]));
            } else if !inner.contains(stream_key(entries[i])) {
                assert(outer[outer.len() - 1] == stream_key(entries[i]));
            }
        }
    }
}

/// A line that is shipped comes in the group of its script and stream, as a
/// line of that group.
pub proof fn law_each_line_is_shipped(entries: Seq<LokiLogEntry>, i: int)
    requires
        0 <= i < entries.len(),
    ensures
        stream_values(entries, stream_key(entries[i])).contains(stream_value(entries[i])),
    decreases entries.len(),
{
    let k = stream_key(entries[i]);
    let outer = stream_values(entries, k);
    if i == entries.len() - 1 {
        assert(outer[outer.len() - 1] == stream_value(entries[i]));
    } else {
        let front = entries.drop_last();
        assert(front[i] == entries[i]);
        law_each_line_is_shipped(front, i);
        let inner = stream_values(front, k);
        let j = inner.index_of(stream_value(entries[i]));
        assert(outer[j] == stream_value(entries[i]));
    }
}

/// The lines of a group that has none yet are none.
proof fn lemma_no_values(entries: Seq<LokiLogEntry>, k: (Seq<char>, Seq<char>))
    requires
        !stream_keys(entries).contains(k),
    ensures
        stream_values(entries, k).len() == 0,
    decreases entries.len(),
{
    if entries.len() > 0 {
        law_each_group_is_one(entries);
        let front = entries.drop_last();
        let inner = stream_keys(front);
        if inner.contains(k) {
            let j = inner.index_of(k);
            assert(stream_keys(entries)[j] == k);
        }
        if stream_key(entries.last()) == k {
            assert(stream_key(entries[entries.len() - 1]) == k);
        }
        lemma_no_values(front, k);
    }
}

/// The position of a group, or the number of groups where there is none.
fn find_group(groups: &Vec<Group>, script: &str, stream: &str) -> (r: usize)
    ensures
        r <= groups@.len(),
        r < groups@.len() ==> group_keys(groups@)[r as int] == (script@, stream@),
        r == groups@.len() ==> !group_keys(groups@).contains((script@, stream@)),
{
    let mut i: usize = 0;
    while i < groups.len()
        invariant
            i <= groups@.len(),
            forall|j: int|
                0 <= j < i ==> #[trigger] group_keys(groups@)[j] != (script@, stream@),
        decreases groups.len() - i,
    {
        assert(group_keys(groups@)[i as int] == groups@[i as int].key());
        if same_text(groups[i].script.as_str(), script) && same_text(
            groups[i].stream.as_str(),
            stream,
        ) {
            return i;
        }
        i = i + 1;
    }
    i
}

/// Groups lines by script and stream.
fn group_entries(entries: Vec<LokiLogEntry>) -> (r: Vec<Group>)
    ensures
        group_keys(r@) == stream_keys(entries@),
        forall|i: int|
            0 <= i < r@.len() ==> value_texts((#[trigger] r@[i]).values@) == stream_values(
                entries@,
                r@[i].key(),
            ),
{
    let mut groups: Vec<Group> = Vec::new();
    let ghost all = entries@;
    let mut i: usize = 0;
    assert(group_keys(groups@) =~= stream_keys(all.take(0)));
    while i < entries.len()
        invariant
            all == entries@,
            i <= all.len(),
            group_keys(groups@) == stream_keys(all.take(i as int)),
            forall|j: int|
                0 <= j < groups@.len() ==> value_texts((#[trigger] groups@[j]).values@)
                    == stream_values(all.take(i as int), groups@[j].key()),
        decreases entries.len() - i,
    {
        let entry = &entries[i];
        let nanos: i64 = match entry.timestamp.timestamp_nanos_opt() {
            Some(n) => n,
            None => 0,
        };
        let value = (decimal_i64(nanos), entry.content.clone());
        let g = find_group(&groups, entry.script.as_str(), entry.stream.as_str());
        let ghost before = groups@;
        let ghost front = all.take(i as int);
        let ghost now = all.take(i as int + 1);
        let ghost k = stream_key(all[i as int]);
        let ghost shown = (value.0@, value.1@);
        proof {
            assert(now.drop_last() =~= front);
            assert(now.last() == all[i as int]);
            assert(shown == stream_value(all[i as int]));
            law_each_group_is_one(front);
        }
        if g < groups.len() {
            let mut group = Group {
                script: entry.script.clone(),
                stream: entry.stream.clone(),
                values: Vec::new(),
            };
            std::mem::swap(&mut group, &mut groups[g]);
            let ghost old_values = group.values@;
            group.values.push(value);
            let ghost new_values = group.values@;
            std::mem::swap(&mut group, &mut groups[g]);
            proof {
                assert(before[g as int].key() == group_keys(before)[g as int]);
                assert(group_keys(groups@) =~= group_keys(before));
                assert(value_texts(new_values) =~= value_texts(old_values).push(shown));
                assert forall|j: int| 0 <= j < groups@.len() implies value_texts(
                    (#[trigger] groups@[j]).values@,
                ) == stream_values(now, groups@[j].key()) by {
                    if j != g {
                        assert(groups@[j] == before[j]);
                        assert(group_keys(before)[j] != group_keys(before)[g as int]);
                        assert(group_keys(before)[j] == before[j].key());
                    }
                }
            }
        } else {
            let mut values: Vec<(String, String)> = Vec::new();
            values.push(value);
            let ghost only = values@;
            groups.push(
                Group { script: entry.script.clone(), stream: entry.stream.clone(), values },
            );
            proof {
                lemma_no_values(front, k);
                assert(group_keys(groups@) =~= group_keys(before).push(k));
                assert(value_texts(only) =~= stream_values(front, k).push(shown));
                assert forall|j: int| 0 <= j < groups@.len() implies value_texts(
                    (#[trigger] groups@[j]).values@,
                ) == stream_values(now, groups@[j].key()) by {
                    if j < before.len() {
                        assert(groups@[j] == before[j]);
                        assert(group_keys(before)[j] == before[j].key());
                        assert(group_keys(before).contains(before[j].key()));
                    }
                }
            }
        }
        i = i + 1;
    }
    assert(all.take(i as int) =~= all);
    groups
}

/// The labels of a group, with further ones over them.
fn labels_of(script: String, stream: String, extra: &NameMap<String>) -> (r: NameMap<String>)
    requires
        extra.wf(),
    ensures
        r.wf(),
        text_map(r@) == stream_labels((script@, stream@), text_map(extra@)),
{
    let mut labels: NameMap<String> = NameMap::new();
    let ghost k = (script@, stream@);
    labels.insert("script".to_owned(), script);
    labels.insert("stream".to_owned(), stream);
    let ghost base = Map::<Seq<char>, Seq<char>>::empty().insert("script"@, k.0).insert(
        "stream"@,
        k.1,
    );
    assert(text_map(labels@) =~= base);
    let mut i: usize = 0;
    let n = extra.len();
    let ghost whole = text_map(extra@);
    assert(text_map(labels@) =~= base.union_prefer_right(
        whole.restrict(extra.names().take(0).to_set()),
    ));
    while i < n
        invariant
            extra.wf(),
            labels.wf(),
            n == extra.names().len(),
            i <= n,
            whole == text_map(extra@),
            text_map(labels@) == base.union_prefer_right(
                whole.restrict(extra.names().take(i as int).to_set()),
            ),
        decreases n - i,
    {
        let name = extra.name_at(i);
        let value = extra.value_at(i);
        let ghost before = text_map(labels@);
        labels.insert(name.clone(), value.clone());
        proof {
            extra.lemma_at(i as int);
            let taken = extra.names().take(i as int);
            let more = extra.names().take(i as int + 1);
            assert(more =~= taken.push(name@));
            assert(more.to_set() =~= taken.to_set().insert(name@)) by {
                assert(more[i as int] == name@);
                assert forall|q: Seq<char>| taken.contains(q) implies more.contains(q) by {
                    assert(more[taken.index_of(q)] == q);
                }
                assert forall|q: Seq<char>|
                    more.contains(q) && q != name@ implies taken.contains(q) by {
                    assert(taken[more.index_of(q)] == q);
                }
            }
            assert(text_map(labels@) =~= before.insert(name@, value@));
            assert(text_map(labels@) =~= base.union_prefer_right(whole.restrict(more.to_set())));
        }
        i = i + 1;
    }
    proof {
        assert(extra.names().take(n as int) =~= extra.names());
        assert(whole.restrict(extra.names().to_set()) =~= whole);
    }
    labels
}

/// Whether a batch is shipped at once.
pub open spec fn is_full(batch: Seq<LokiLogEntry>) -> bool {
    batch.len() >= BATCH_MAX_SIZE
}

impl LokiShipper {
    /// The batch is not full.
    pub open spec fn wf(self) -> bool {
        self.batch@.len() < BATCH_MAX_SIZE
    }

    /// No lines wait.
    pub fn new() -> (r: Self)
        ensures
            r.wf(),
            r.batch@.len() == 0,
    {
        LokiShipper { batch: Vec::new() }
    }

    /// Takes a line in. A batch that is full by it is emptied, and given in groups.
    pub fn accept(&mut self, entry: LokiLogEntry, extra_labels: &NameMap<String>) -> (r: Option<
        Vec<LokiStream>,
    >)
        requires
            old(self).wf(),
            extra_labels.wf(),
        ensures
            final(self).wf(),
            ({
                let batch = old(self).batch@.push(entry);
                if batch.len() >= BATCH_MAX_SIZE {
                    &&& is_full(batch)
                    &&& final(self).batch@.len() == 0
                    &&& r is Some
                    &&& groups(r->0@, batch, text_map(extra_labels@))
                } else {
                    &&& !is_full(batch)
                    &&& final(self).batch@ == batch
                    &&& r is None
                }
            }),
    {
        self.batch.push(entry);
        if self.batch.len() >= BATCH_MAX_SIZE {
            self.flush_batch(extra_labels)
        } else {
            None
        }
    }

    /// Empties the batch, and gives its lines in groups; nothing where there are none.
    pub fn flush_batch(&mut self, extra_labels: &NameMap<String>) -> (r: Option<Vec<LokiStream>>)
        requires
            extra_labels.wf(),
        ensures
            final(self).wf(),
            final(self).batch@.len() == 0,
            r is Some == (old(self).batch@.len() > 0),
            r is Some ==> groups(r->0@, old(self).batch@, text_map(extra_labels@)),
    {
        if self.batch.len() == 0 {
            return None;
        }
        let mut entries: Vec<LokiLogEntry> = Vec::new();
        std::mem::swap(&mut entries, &mut self.batch);
        let ghost all = entries@;
        let mut pending = group_entries(entries);
        let ghost keys = stream_keys(all);
        let ghost total = pending@;
        let mut streams: Vec<LokiStream> = Vec::new();
        assert(total.skip(0) =~= total);
        while pending.len() > 0
            invariant
                extra_labels.wf(),
                group_keys(total) == keys,
                keys == stream_keys(all),
                streams@.len() + pending@.len() == total.len(),
                pending@ == total.skip(streams@.len() as int),
                forall|i: int|
                    0 <= i < total.len() ==> value_texts((#[trigger] total[i]).values@)
                        == stream_values(all, total[i].key()),
                forall|i: int|
                    #![trigger streams@[i]]
                    0 <= i < streams@.len() ==> streams@[i].labels.wf() && text_map(
                        streams@[i].labels@,
                    ) == stream_labels(keys[i], text_map(extra_labels@)) && value_texts(
                        streams@[i].values@,
                    ) == stream_values(all, keys[i]),
            decreases pending.len(),
        {
            let ghost at = streams@.len() as int;
            let group = pending.remove(0);
            proof {
                assert(group == total[at]);
                assert(group_keys(total)[at] == total[at].key());
                assert(pending@ =~= total.skip(at + 1));
            }
            let labels = labels_of(group.script, group.stream, extra_labels);
            streams.push(LokiStream { labels, values: group.values });
        }
        assert(group_keys(total).len() == total.len());
        Some(streams)
    }
}

/// A further label wins over the script or the stream of the same name.
pub proof fn law_extra_labels_win(
    k: (Seq<char>, Seq<char>),
    extra: Map<Seq<char>, Seq<char>>,
    label: Seq<char>,
)
    ensures
        extra.contains_key(label) ==> stream_labels(k, extra).contains_key(label) && stream_labels(
            k,
            extra,
        )[label] == extra[label],
        !extra.contains_key("script"@) ==> stream_labels(k, extra)["script"@] == k.0,
        !extra.contains_key("stream"@) ==> stream_labels(k, extra)["stream"@] == k.1,
{
    reveal_strlit("script");
    reveal_strlit("stream");
    assert("script"@[1] != "stream"@[1]);
}

/// One more line is shipped behind the others of its script and stream, and
/// leaves the lines of all others alone: with what it says, and with its time in
/// nanoseconds, or zero where 64 bits do not hold it.
pub proof fn law_one_more_line(
    entries: Seq<LokiLogEntry>,
    entry: LokiLogEntry,
    script: Seq<char>,
    stream: Seq<char>,
)
    ensures
        ({
            let before = stream_values(entries, (script, stream));
            let after = stream_values(entries.push(entry), (script, stream));
            let nanos = entry.timestamp.secs * 1_000_000_000 + entry.timestamp.nanos;
            if entry.script@ == script && entry.stream@ == stream {
                &&& after.len() == before.len() + 1
                &&& after.drop_last() == before
                &&& after.last().1 == entry.content@
                &&& i64::MIN <= nanos <= i64::MAX ==> after.last().0 == signed_decimal(nanos)
                &&& !(i64::MIN <= nanos <= i64::MAX) ==> after.last().0 == signed_decimal(0)
            } else {
                after == before
            }
        }),
        ({
            let before = stream_keys(entries);
            let after = stream_keys(entries.push(entry));
            let k = (entry.script@, entry.stream@);
            &&& before.contains(k) ==> after == before
            &&& !before.contains(k) ==> after == before.push(k)
        }),
{
    let more = entries.push(entry);
    assert(more.drop_last() =~= entries);
    assert(more.last() == entry);
    let k = (script, stream);
    if entry.script@ == script && entry.stream@ == stream {
        assert(stream_values(more, k).drop_last() =~= stream_values(entries, k));
    }
}

/// A group has the labels of its script and its stream and the further ones,
/// and no others.
pub proof fn law_labels(
    script: Seq<char>,
    stream: Seq<char>,
    extra: Map<Seq<char>, Seq<char>>,
    label: Seq<char>,
)
    ensures
        stream_labels((script, stream), extra).contains_key(label) <==> label == "script"@ || label
            == "stream"@ || extra.contains_key(label),
        !extra.contains_key("script"@) ==> stream_labels((script, stream), extra)["script"@]
            == script,
        !extra.contains_key("stream"@) ==> stream_labels((script, stream), extra)["stream"@]
            == stream,
        extra.contains_key(label) ==> stream_labels((script, stream), extra)[label]
            == extra[label],
{
    law_extra_labels_win((script, stream), extra, label);
}

/// Slashes at the end of an address do not count.
pub proof fn law_slashes(url: Seq<char>)
    ensures
        without_slashes(url.push('/')) == without_slashes(url),
        url.len() == 0 || url.last() != '/' ==> without_slashes(url) == url,
{
    assert(url.push('/').drop_last() =~= url);
}

/// A batch is shipped at once when it has a hundred lines, and not before.
pub proof fn law_full_batch(shipper: LokiShipper, entry: LokiLogEntry)
    requires
        shipper.wf(),
    ensures
        shipper.batch@.len() <= 99,
        is_full(shipper.batch@.push(entry)) <==> shipper.batch@.len() == 99,
{
}

} // verus!
