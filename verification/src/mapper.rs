//! From the words of a reply to attributes and records.
//!
//! An attribute word has the form `=key=value`. Its key runs up to the
//! first `=` behind the leading byte, its value is what follows that `=`.

use vstd::prelude::*;
use crate::codec::copy_range;
use crate::models::{Client, IPAddress};
use crate::words::{ascii, bytes_equal, equals, has_prefix, starts_with, word_views};

verus! {

/// The place of the first `=` in `w` at or behind `i`, or the length of `w`
/// where there is none.
pub open spec fn first_equals(w: Seq<u8>, i: int) -> int
    decreases w.len() - i,
{
    if i < 0 || i >= w.len() {
        w.len() as int
    } else if w[i] == 61 {
        i
    } else {
        first_equals(w, i + 1)
    }
}

/// The key of an attribute word: the word up to the first `=` behind its
/// leading byte, the whole word where there is none.
pub open spec fn attr_key(w: Seq<u8>) -> Seq<u8> {
    w.subrange(0, first_equals(w, 1))
}

/// The value of an attribute word: what follows the first `=` behind its
/// leading byte, nothing where there is none.
pub open spec fn attr_value(w: Seq<u8>) -> Seq<u8> {
    let k = first_equals(w, 1);
    if k < w.len() {
        w.subrange(k + 1, w.len() as int)
    } else {
        Seq::<u8>::empty()
    }
}

/// A word without a `=` behind its leading byte is all key, and its value
/// is empty.
pub proof fn lemma_attribute_without_value(w: Seq<u8>)
    requires
        forall|i: int| 1 <= i < w.len() ==> w[i] != 61,
    ensures
        attr_key(w) == w,
        attr_value(w) == Seq::<u8>::empty(),
{
    lemma_no_equals_from(w, 1);
    assert(w.subrange(0, w.len() as int) =~= w);
}

proof fn lemma_no_equals_from(w: Seq<u8>, i: int)
    requires
        1 <= i,
        forall|j: int| 1 <= j < w.len() ==> w[j] != 61,
    ensures
        first_equals(w, i) == w.len(),
    decreases w.len() - i,
{
    if i < w.len() {
        lemma_no_equals_from(w, i + 1);
    }
}

/// A word with a `=` at `k`, and none between its leading byte and `k`, has
/// the bytes before `k` as its key and those behind `k` as its value.
pub proof fn lemma_attribute_with_value(w: Seq<u8>, k: int)
    requires
        1 <= k < w.len(),
        w[k] == 61,
        forall|i: int| 1 <= i < k ==> w[i] != 61,
    ensures
        attr_key(w) == w.subrange(0, k),
        attr_value(w) == w.subrange(k + 1, w.len() as int),
{
    lemma_first_equals_at(w, 1, k);
}

proof fn lemma_first_equals_at(w: Seq<u8>, i: int, k: int)
    requires
        1 <= i <= k < w.len(),
        w[k] == 61,
        forall|j: int| 1 <= j < k ==> w[j] != 61,
    ensures
        first_equals(w, i) == k,
    decreases k - i,
{
    if i < k {
        lemma_first_equals_at(w, i + 1, k);
    }
}

/// Splits an attribute word into its key and its value.
pub fn split_attribute(word: &[u8]) -> (r: (Vec<u8>, Vec<u8>))
    ensures
        r.0@ == attr_key(word@),
        r.1@ == attr_value(word@),
{
    let n: usize = word.len();
    if n == 0 {
        let key: Vec<u8> = Vec::new();
        assert(key@ =~= attr_key(word@));
        return (key, Vec::new());
    }
    let mut k: usize = 1;
    while k < n && word[k] != 61
        invariant
            1 <= k <= n,
            n == word@.len(),
            first_equals(word@, 1) == first_equals(word@, k as int),
        decreases n - k,
    {
        k += 1;
    }
    let key = copy_range(word, 0, k);
    if k < n {
        let value = copy_range(word, k + 1, n);
        (key, value)
    } else {
        (key, Vec::new())
    }
}

/// The attributes of one sentence: for each key the value that was given
/// last.
pub struct AttributeMap {
    entries: Vec<(Vec<u8>, Vec<u8>)>,
}

/// The mapping that a list of entries stands for, a later entry taking the
/// place of an earlier one with the same key.
pub open spec fn entries_map(es: Seq<(Vec<u8>, Vec<u8>)>) -> Map<Seq<u8>, Seq<u8>>
    decreases es.len(),
{
    if es.len() == 0 {
        Map::empty()
    } else {
        entries_map(es.drop_last()).insert(es.last().0@, es.last().1@)
    }
}

impl View for AttributeMap {
    type V = Map<Seq<u8>, Seq<u8>>;

    closed spec fn view(&self) -> Map<Seq<u8>, Seq<u8>> {
        entries_map(self.entries@)
    }
}

impl AttributeMap {
    /// A mapping without any key.
    pub fn new() -> (r: AttributeMap)
        ensures
            r@ == Map::<Seq<u8>, Seq<u8>>::empty(),
    {
        AttributeMap { entries: Vec::new() }
    }

    /// Gives `key` the value `value`, in place of any it had.
    pub fn insert(&mut self, key: Vec<u8>, value: Vec<u8>)
        ensures
            final(self)@ == old(self)@.insert(key@, value@),
    {
        let ghost before = self.entries@;
        self.entries.push((key, value));
        assert(self.entries@.drop_last() =~= before);
    }

    /// The value of `key`, or `None` where the mapping has no such key.
    pub fn get(&self, key: &[u8]) -> (r: Option<&Vec<u8>>)
        ensures
            match r {
                Some(v) => self@.contains_key(key@) && self@[key@] == v@,
                None => !self@.contains_key(key@),
            },
    {
        let mut found: Option<&Vec<u8>> = None;
        let mut i: usize = 0;
        assert(self.entries@.take(0) =~= Seq::<(Vec<u8>, Vec<u8>)>::empty());
        while i < self.entries.len()
            invariant
                i <= self.entries@.len(),
                match found {
                    Some(v) => entries_map(self.entries@.take(i as int)).contains_key(key@)
                        && entries_map(self.entries@.take(i as int))[key@] == v@,
                    None => !entries_map(self.entries@.take(i as int)).contains_key(key@),
                },
            decreases self.entries@.len() - i,
        {
            assert(self.entries@.take(i + 1).drop_last() =~= self.entries@.take(i as int));
            assert(self.entries@.take(i + 1).last() == self.entries@[i as int]);
            if bytes_equal(self.entries[i].0.as_slice(), key) {
                found = Some(&self.entries[i].1);
            }
            i += 1;
        }
        assert(self.entries@.take(self.entries@.len() as int) =~= self.entries@);
        found
    }
}

/// The mapping that attribute words give, read in order.
pub open spec fn fold_attributes(attrs: Seq<Seq<u8>>) -> Map<Seq<u8>, Seq<u8>>
    decreases attrs.len(),
{
    if attrs.len() == 0 {
        Map::empty()
    } else {
        fold_attributes(attrs.drop_last()).insert(attr_key(attrs.last()), attr_value(attrs.last()))
    }
}

/// The attributes of a sentence: its first word is a marker and gives
/// none, each later word gives its key and value, and of two words with
/// one key the later counts.
pub open spec fn spec_attribute_map(sentence: Seq<Seq<u8>>) -> Map<Seq<u8>, Seq<u8>> {
    if sentence.len() == 0 {
        Map::empty()
    } else {
        fold_attributes(sentence.subrange(1, sentence.len() as int))
    }
}

/// Reads the attributes of a sentence.
pub fn to_attribute_map(sentence: &Vec<Vec<u8>>) -> (r: AttributeMap)
    ensures
        r@ == spec_attribute_map(word_views(sentence@)),
{
    let ghost ws = word_views(sentence@);
    let mut attrs = AttributeMap::new();
    if sentence.len() == 0 {
        return attrs;
    }
    let mut i: usize = 1;
    assert(ws.subrange(1, 1) =~= Seq::<Seq<u8>>::empty());
    while i < sentence.len()
        invariant
            1 <= i <= sentence@.len(),
            ws == word_views(sentence@),
            attrs@ == fold_attributes(ws.subrange(1, i as int)),
        decreases sentence@.len() - i,
    {
        proof {
            let upto = ws.subrange(1, i + 1);
            assert(upto.drop_last() =~= ws.subrange(1, i as int));
            assert(upto.last() == sentence@[i as int]@);
        }
        let (key, value) = split_attribute(sentence[i].as_slice());
        attrs.insert(key, value);
        i += 1;
    }
    attrs
}

/// How far a reply has been read: the records that are complete, the one
/// that is being filled, and whether the end of the reply was seen.
pub struct Records {
    pub done: Seq<Seq<Seq<u8>>>,
    pub open: Option<Seq<Seq<u8>>>,
    pub stopped: bool,
}

/// A record of `n` fields, each empty.
pub open spec fn blank_row(n: nat) -> Seq<Seq<u8>> {
    Seq::new(n, |i: int| Seq::<u8>::empty())
}

/// The complete records, with the one that is being filled as the last.
pub open spec fn flushed(acc: Records) -> Seq<Seq<Seq<u8>>> {
    match acc.open {
        Some(row) => acc.done.push(row),
        None => acc.done,
    }
}

/// The place, from `i` on, of the first field name that `key` names: `key`
/// is `=` and then the name.
pub open spec fn find_field(key: Seq<u8>, names: Seq<Seq<u8>>, i: int) -> Option<int>
    decreases names.len() - i,
{
    if i < 0 || i >= names.len() {
        None
    } else if key == seq![61u8] + names[i] {
        Some(i)
    } else {
        find_field(key, names, i + 1)
    }
}

/// What one more word does. Behind the end of the reply, nothing. A word
/// that starts with `!re` closes the record that is being filled, if there
/// is one, and opens an empty one. A word that starts with `!done` closes
/// it too, and ends the reply. Any other word sets the field that its key
/// names to its value, where a record is being filled and
/// the key names a field.
pub open spec fn record_step(acc: Records, w: Seq<u8>, names: Seq<Seq<u8>>) -> Records {
    if acc.stopped {
        acc
    } else if has_prefix(w, ascii("!re"@)) {
        Records { done: flushed(acc), open: Some(blank_row(names.len())), stopped: false }
    } else if has_prefix(w, ascii("!done"@)) {
        Records { done: flushed(acc), open: None, stopped: true }
    } else {
        match (acc.open, find_field(attr_key(w), names, 0)) {
            (Some(row), Some(k)) => Records {
                done: acc.done,
                open: Some(row.update(k, attr_value(w))),
                stopped: false,
            },
            _ => acc,
        }
    }
}

/// Reading the words of a reply in order, from no record at all.
pub open spec fn record_run(words: Seq<Seq<u8>>, names: Seq<Seq<u8>>) -> Records
    decreases words.len(),
{
    if words.len() == 0 {
        Records { done: Seq::empty(), open: None, stopped: false }
    } else {
        record_step(record_run(words.drop_last(), names), words.last(), names)
    }
}

/// The records of a reply, each a sequence of field values in the order of
/// `names`: one for each `!re` word that a later `!re` or the `!done` word
/// closes.
pub open spec fn spec_to_records(words: Seq<Seq<u8>>, names: Seq<Seq<u8>>) -> Seq<Seq<Seq<u8>>> {
    record_run(words, names).done
}

/// The field names of an address-list entry.
pub open spec fn address_fields() -> Seq<Seq<u8>> {
    seq![ascii(".id"@), ascii("address"@), ascii("list"@)]
}

/// The field names of a queue.
pub open spec fn queue_fields() -> Seq<Seq<u8>> {
    seq![
        ascii(".id"@),
        ascii("name"@),
        ascii("target"@),
        ascii("max-limit"@),
        ascii("burst-limit"@),
        ascii("burst-threshold"@),
        ascii("burst-time"@),
    ]
}

/// The field values of an address-list entry, in the order of
/// `address_fields`.
pub open spec fn address_row(a: IPAddress) -> Seq<Seq<u8>> {
    seq![a.id@, a.address@, a.list@]
}

/// The field values of each entry.
pub open spec fn address_rows(v: Seq<IPAddress>) -> Seq<Seq<Seq<u8>>> {
    Seq::new(v.len(), |i: int| address_row(v[i]))
}

/// The field values of a queue, in the order of `queue_fields`.
pub open spec fn queue_row(c: Client) -> Seq<Seq<u8>> {
    seq![c.id@, c.name@, c.target@, c.max_limit@, c.burst_limit@, c.burst_threshold@, c.burst_time@]
}

/// The field values of each queue.
pub open spec fn queue_rows(v: Seq<Client>) -> Seq<Seq<Seq<u8>>> {
    Seq::new(v.len(), |i: int| queue_row(v[i]))
}

/// Reads the address-list entries out of the words of a reply.
pub fn address_list(words: &Vec<Vec<u8>>) -> (r: Vec<IPAddress>)
    ensures
        address_rows(r@) == spec_to_records(word_views(words@), address_fields()),
{
    let ghost ws = word_views(words@);
    let ghost names = address_fields();
    let mut out: Vec<IPAddress> = Vec::new();
    let mut cur = IPAddress::new();
    let mut open = false;
    let mut stopped = false;
    let mut i: usize = 0;
    assert(ws.take(0) =~= Seq::<Seq<u8>>::empty());
    assert(address_rows(out@) =~= Seq::<Seq<Seq<u8>>>::empty());
    while i < words.len()
        invariant
            i <= words@.len(),
            ws == word_views(words@),
            names == address_fields(),
            record_run(ws.take(i as int), names).done == address_rows(out@),
            record_run(ws.take(i as int), names).open == (if open {
                Some(address_row(cur))
            } else {
                None
            }),
            record_run(ws.take(i as int), names).stopped == stopped,
        decreases words@.len() - i,
    {
        let word = words[i].as_slice();
        let ghost acc = record_run(ws.take(i as int), names);
        proof {
            assert(ws.take(i + 1).drop_last() =~= ws.take(i as int));
            assert(ws.take(i + 1).last() == word@);
            reveal_with_fuel(find_field, 4);
            reveal_strlit("!re");
            reveal_strlit("!done");
            reveal_strlit("=.id");
            reveal_strlit("=address");
            reveal_strlit("=list");
            reveal_strlit(".id");
            reveal_strlit("address");
            reveal_strlit("list");
        }
        if stopped {
        } else if starts_with(word, "!re") || starts_with(word, "!done") {
            if open {
                out.push(cur);
                assert(address_rows(out@) =~= flushed(acc));
            }
            cur = IPAddress::new();
            if starts_with(word, "!re") {
                open = true;
                assert(address_row(cur) =~= blank_row(3));
            } else {
                open = false;
                stopped = true;
            }
        } else if open {
            let ghost row = address_row(cur);
            let (key, value) = split_attribute(word);
            proof {
                assert(ascii("=.id"@) =~= seq![61u8] + ascii(".id"@));
                assert(ascii("=address"@) =~= seq![61u8] + ascii("address"@));
                assert(ascii("=list"@) =~= seq![61u8] + ascii("list"@));
            }
            if equals(key.as_slice(), "=.id") {
                cur.id = value;
                assert(address_row(cur) =~= row.update(0, attr_value(word@)));
            } else if equals(key.as_slice(), "=address") {
                cur.address = value;
                assert(address_row(cur) =~= row.update(1, attr_value(word@)));
            } else if equals(key.as_slice(), "=list") {
                cur.list = value;
                assert(address_row(cur) =~= row.update(2, attr_value(word@)));
            }
        }
        i += 1;
    }
    assert(ws.take(words@.len() as int) =~= ws);
    out
}

/// Reads the queues out of the words of a reply.
pub fn queue_list(words: &Vec<Vec<u8>>) -> (r: Vec<Client>)
    ensures
        queue_rows(r@) == spec_to_records(word_views(words@), queue_fields()),
{
    let ghost ws = word_views(words@);
    let ghost names = queue_fields();
    let mut out: Vec<Client> = Vec::new();
    let mut cur = Client::new();
    let mut open = false;
    let mut stopped = false;
    let mut i: usize = 0;
    assert(ws.take(0) =~= Seq::<Seq<u8>>::empty());
    assert(queue_rows(out@) =~= Seq::<Seq<Seq<u8>>>::empty());
    while i < words.len()
        invariant
            i <= words@.len(),
            ws == word_views(words@),
            names == queue_fields(),
            record_run(ws.take(i as int), names).done == queue_rows(out@),
            record_run(ws.take(i as int), names).open == (if open {
                Some(queue_row(cur))
            } else {
                None
            }),
            record_run(ws.take(i as int), names).stopped == stopped,
        decreases words@.len() - i,
    {
        let word = words[i].as_slice();
        let ghost acc = record_run(ws.take(i as int), names);
        proof {
            assert(ws.take(i + 1).drop_last() =~= ws.take(i as int));
            assert(ws.take(i + 1).last() == word@);
            reveal_with_fuel(find_field, 8);
            reveal_strlit("!re");
            reveal_strlit("!done");
            reveal_strlit("=.id");
            reveal_strlit("=name");
            reveal_strlit("=target");
            reveal_strlit("=max-limit");
            reveal_strlit("=burst-limit");
            reveal_strlit("=burst-threshold");
            reveal_strlit("=burst-time");
            reveal_strlit(".id");
            reveal_strlit("name");
            reveal_strlit("target");
            reveal_strlit("max-limit");
            reveal_strlit("burst-limit");
            reveal_strlit("burst-threshold");
            reveal_strlit("burst-time");
        }
        if stopped {
        } else if starts_with(word, "!re") || starts_with(word, "!done") {
            if open {
                out.push(cur);
                assert(queue_rows(out@) =~= flushed(acc));
            }
            cur = Client::new();
            if starts_with(word, "!re") {
                open = true;
                assert(queue_row(cur) =~= blank_row(7));
            } else {
                open = false;
                stopped = true;
            }
        } else if open {
            let ghost row = queue_row(cur);
            let (key, value) = split_attribute(word);
            proof {
                assert(ascii("=.id"@) =~= seq![61u8] + ascii(".id"@));
                assert(ascii("=name"@) =~= seq![61u8] + ascii("name"@));
                assert(ascii("=target"@) =~= seq![61u8] + ascii("target"@));
                assert(ascii("=max-limit"@) =~= seq![61u8] + ascii("max-limit"@));
                assert(ascii("=burst-limit"@) =~= seq![61u8] + ascii("burst-limit"@));
                assert(ascii("=burst-threshold"@) =~= seq![61u8] + ascii("burst-threshold"@));
                assert(ascii("=burst-time"@) =~= seq![61u8] + ascii("burst-time"@));
            }
            if equals(key.as_slice(), "=.id") {
                cur.id = value;
                assert(queue_row(cur) =~= row.update(0, attr_value(word@)));
            } else if equals(key.as_slice(), "=name") {
                cur.name = value;
                assert(queue_row(cur) =~= row.update(1, attr_value(word@)));
            } else if equals(key.as_slice(), "=target") {
                cur.target = value;
                assert(queue_row(cur) =~= row.update(2, attr_value(word@)));
            } else if equals(key.as_slice(), "=max-limit") {
                cur.max_limit = value;
                assert(queue_row(cur) =~= row.update(3, attr_value(word@)));
            } else if equals(key.as_slice(), "=burst-limit") {
                cur.burst_limit = value;
                assert(queue_row(cur) =~= row.update(4, attr_value(word@)));
            } else if equals(key.as_slice(), "=burst-threshold") {
                cur.burst_threshold = value;
                assert(queue_row(cur) =~= row.update(5, attr_value(word@)));
            } else if equals(key.as_slice(), "=burst-time") {
                cur.burst_time = value;
                assert(queue_row(cur) =~= row.update(6, attr_value(word@)));
            }
        }
        i += 1;
    }
    assert(ws.take(words@.len() as int) =~= ws);
    out
}

/// Whether `w` neither opens a record nor ends the reply.
pub open spec fn is_plain(w: Seq<u8>) -> bool {
    !has_prefix(w, ascii("!re"@)) && !has_prefix(w, ascii("!done"@))
}

/// Words that neither open a record nor end the reply leave the number of
/// complete records as it is, and with it whether a record is being
/// filled and whether the reply has ended.
pub proof fn lemma_plain_words_keep_records(
    words: Seq<Seq<u8>>,
    attrs: Seq<Seq<u8>>,
    names: Seq<Seq<u8>>,
)
    requires
        forall|i: int| 0 <= i < attrs.len() ==> is_plain(#[trigger] attrs[i]),
    ensures
        record_run(words + attrs, names).done == record_run(words, names).done,
        record_run(words + attrs, names).stopped == record_run(words, names).stopped,
        record_run(words + attrs, names).open.is_some() == record_run(
            words,
            names,
        ).open.is_some(),
    decreases attrs.len(),
{
    if attrs.len() == 0 {
        assert(words + attrs =~= words);
    } else {
        lemma_plain_words_keep_records(words, attrs.drop_last(), names);
        assert((words + attrs).drop_last() =~= words + attrs.drop_last());
        assert((words + attrs).last() == attrs[attrs.len() - 1]);
        assert(is_plain(attrs[attrs.len() - 1]));
    }
}

/// A reply of `!re`, attribute words, `!re`, attribute words and `!done`
/// holds exactly two records.
pub proof fn lemma_two_markers_two_records(
    first: Seq<Seq<u8>>,
    second: Seq<Seq<u8>>,
    names: Seq<Seq<u8>>,
)
    requires
        forall|i: int| 0 <= i < first.len() ==> is_plain(#[trigger] first[i]),
        forall|i: int| 0 <= i < second.len() ==> is_plain(#[trigger] second[i]),
    ensures
        spec_to_records(
            seq![ascii("!re"@)] + first + seq![ascii("!re"@)] + second + seq![ascii("!done"@)],
            names,
        ).len() == 2,
{
    reveal_strlit("!re");
    reveal_strlit("!done");
    let re = ascii("!re"@);
    let done = ascii("!done"@);
    assert(re.subrange(0, re.len() as int) =~= re);
    assert(done.subrange(0, done.len() as int) =~= done);
    assert(done.subrange(0, re.len() as int)[1] != re[1]);
    let w1 = seq![re];
    assert(w1.drop_last() =~= Seq::<Seq<u8>>::empty());
    assert(w1.last() == re);
    assert(record_run(w1.drop_last(), names).done.len() == 0);
    assert(record_run(w1, names).done.len() == 0);
    let w2 = w1 + first;
    lemma_plain_words_keep_records(w1, first, names);
    let w3 = w2 + seq![re];
    assert(w3.drop_last() =~= w2);
    assert(w3.last() == re);
    assert(record_run(w3, names).done.len() == 1);
    let w4 = w3 + second;
    lemma_plain_words_keep_records(w3, second, names);
    let w5 = w4 + seq![done];
    assert(w5.drop_last() =~= w4);
    assert(w5.last() == done);
}

/// Reading the same words twice gives the same records: what is read
/// depends on the words alone.
pub proof fn lemma_records_repeatable(
    first: Seq<Seq<Seq<u8>>>,
    second: Seq<Seq<Seq<u8>>>,
    words: Seq<Seq<u8>>,
    names: Seq<Seq<u8>>,
)
    requires
        first == spec_to_records(words, names),
        second == spec_to_records(words, names),
    ensures
        first == second,
{
}

} // verus!
