//! Sentences: words in order, closed on the wire by one empty word; and
//! the replies of a router that report a failure.

use vstd::prelude::*;
use vstd::string::is_ascii;
use crate::codec::{
    append_bytes, copy_range, decode_word, encode_word, lemma_word_round_trip, prefix_size,
    spec_decode_word, spec_encode_word, MAX_WORD_LEN,
};
use crate::errors::{ErrorView, MikrotikError};
use crate::words::{
    after_prefix, ascii, bytes_of, equals, parse_u8, spec_parse_u8, strip_prefix, word_views,
};

verus! {

/// Whether each word can be framed: none is longer than a prefix can say.
pub open spec fn encodable(words: Seq<Seq<u8>>) -> bool {
    forall|i: int| 0 <= i < words.len() ==> (#[trigger] words[i]).len() <= MAX_WORD_LEN
}

/// A sentence on the wire: each word in order, then the empty word.
pub open spec fn spec_encode_sentence(words: Seq<Seq<u8>>) -> Seq<u8>
    decreases words.len(),
{
    if words.len() == 0 {
        seq![0u8]
    } else {
        spec_encode_word(words[0]) + spec_encode_sentence(words.drop_first())
    }
}

/// The sentence that starts at `pos` in `s`: its words without the empty
/// one that closes it, and the place behind that one; `None` where `s`
/// ends before the sentence does.
pub open spec fn spec_decode_sentence(s: Seq<u8>, pos: int) -> Option<(Seq<Seq<u8>>, int)>
    decreases s.len() - pos,
{
    match spec_decode_word(s, pos) {
        None => None,
        Some((w, p)) => if w.len() == 0 {
            Some((Seq::<Seq<u8>>::empty(), p))
        } else if pos < p {
            match spec_decode_sentence(s, p) {
                None => None,
                Some((rest, q)) => Some((seq![w] + rest, q)),
            }
        } else {
            None
        },
    }
}

/// `found` with `words` put before what it holds.
pub open spec fn prepend(words: Seq<Seq<u8>>, found: Option<(Seq<Seq<u8>>, int)>) -> Option<
    (Seq<Seq<u8>>, int),
> {
    match found {
        None => None,
        Some((rest, q)) => Some((words + rest, q)),
    }
}

/// Appends the sentence `words` as it goes over the wire to `out`.
pub fn encode_sentence(words: &Vec<Vec<u8>>, out: &mut Vec<u8>)
    requires
        encodable(word_views(words@)),
    ensures
        final(out)@ == old(out)@ + spec_encode_sentence(word_views(words@)),
{
    let ghost ws = word_views(words@);
    let mut i: usize = 0;
    assert(ws.skip(0) =~= ws);
    while i < words.len()
        invariant
            i <= words@.len(),
            ws == word_views(words@),
            encodable(ws),
            old(out)@ + spec_encode_sentence(ws) == out@ + spec_encode_sentence(ws.skip(i as int)),
        decreases words@.len() - i,
    {
        let ghost before = out@;
        assert(ws[i as int].len() <= MAX_WORD_LEN);
        encode_word(words[i].as_slice(), out);
        proof {
            let tail = ws.skip(i as int);
            assert(tail[0] == ws[i as int]);
            assert(tail.drop_first() =~= ws.skip(i + 1));
            assert(out@ + spec_encode_sentence(ws.skip(i + 1)) =~= before + spec_encode_sentence(
                tail,
            ));
        }
        i += 1;
    }
    out.push(0u8);
    assert(out@ =~= old(out)@ + spec_encode_sentence(ws));
}

/// Reads the sentence at `pos` in `buf`: its words, the empty one left out,
/// and the place behind it; `None` where `buf` ends before the sentence
/// does.
pub fn decode_sentence(buf: &[u8], pos: usize) -> (r: Option<(Vec<Vec<u8>>, usize)>)
    ensures
        match r {
            Some((words, next)) => spec_decode_sentence(buf@, pos as int) == Some(
                (word_views(words@), next as int),
            ),
            None => spec_decode_sentence(buf@, pos as int).is_none(),
        },
{
    let mut words: Vec<Vec<u8>> = Vec::new();
    let mut cur: usize = pos;
    assert(word_views(words@) =~= Seq::<Seq<u8>>::empty());
    loop
        invariant
            pos <= cur,
            spec_decode_sentence(buf@, pos as int) == prepend(
                word_views(words@),
                spec_decode_sentence(buf@, cur as int),
            ),
        decreases buf@.len() - cur,
    {
        match decode_word(buf, cur) {
            None => {
                return None;
            },
            Some((w, next)) => {
                if w.len() == 0 {
                    assert(word_views(words@) + Seq::<Seq<u8>>::empty() =~= word_views(words@));
                    return Some((words, next));
                }
                let ghost before = word_views(words@);
                let ghost wv = w@;
                words.push(w);
                proof {
                    assert(word_views(words@) =~= before + seq![wv]);
                    match spec_decode_sentence(buf@, next as int) {
                        None => {},
                        Some((rest, q)) => {
                            assert(before + (seq![wv] + rest) =~= (before + seq![wv]) + rest);
                        },
                    }
                }
                cur = next;
            },
        }
    }
}

/// The length of a sentence on the wire.
pub open spec fn sentence_size(words: Seq<Seq<u8>>) -> nat
    decreases words.len(),
{
    if words.len() == 0 {
        1
    } else {
        prefix_size(words[0].len()) + words[0].len() + sentence_size(words.drop_first())
    }
}

/// A sentence of words that are not empty is read back from its own
/// encoding word for word and in order, without the empty word that
/// closes it, wherever the encoding stands and whatever follows it.
pub proof fn lemma_sentence_round_trip(before: Seq<u8>, words: Seq<Seq<u8>>, after: Seq<u8>)
    requires
        encodable(words),
        forall|i: int| 0 <= i < words.len() ==> (#[trigger] words[i]).len() > 0,
    ensures
        spec_encode_sentence(words).len() == sentence_size(words),
        spec_decode_sentence(before + spec_encode_sentence(words) + after, before.len() as int)
            == Some((words, (before.len() + sentence_size(words)) as int)),
    decreases words.len(),
{
    let s = before + spec_encode_sentence(words) + after;
    let pos = before.len() as int;
    if words.len() == 0 {
        let empty = Seq::<u8>::empty();
        lemma_word_round_trip(before, empty, after);
        assert(spec_encode_word(empty) =~= seq![0u8]);
        assert(spec_decode_word(s, pos) == Some((empty, pos + 1)));
        assert(words =~= Seq::<Seq<u8>>::empty());
    } else {
        let w = words[0];
        let rest = words.drop_first();
        let tail = spec_encode_sentence(rest) + after;
        assert(words[0].len() > 0);
        assert(words[0].len() <= MAX_WORD_LEN);
        lemma_word_round_trip(before, w, tail);
        assert(s =~= before + spec_encode_word(w) + tail);
        let before2 = before + spec_encode_word(w);
        assert forall|i: int| 0 <= i < rest.len() implies (#[trigger] rest[i]).len() > 0
            && rest[i].len() <= MAX_WORD_LEN by {
            assert(rest[i] == words[i + 1]);
        }
        lemma_sentence_round_trip(before2, rest, after);
        assert(s =~= before2 + spec_encode_sentence(rest) + after);
        assert(seq![w] + rest =~= words);
    }
}

/// What a sentence that reports a trap says of its category: that of the
/// last `=category=` word that holds a number from 0 to 255, and 10 where
/// there is none.
pub open spec fn trap_category(attrs: Seq<Seq<u8>>) -> u8
    decreases attrs.len(),
{
    if attrs.len() == 0 {
        10
    } else {
        let earlier = trap_category(attrs.drop_last());
        match after_prefix(attrs.last(), ascii("=category="@)) {
            Some(text) => match spec_parse_u8(text) {
                Some(c) => c,
                None => earlier,
            },
            None => earlier,
        }
    }
}

/// What a sentence that reports a trap says as its message: the values of
/// its `=message=` words, one after the other.
pub open spec fn trap_message(attrs: Seq<Seq<u8>>) -> Seq<u8>
    decreases attrs.len(),
{
    if attrs.len() == 0 {
        Seq::<u8>::empty()
    } else {
        let earlier = trap_message(attrs.drop_last());
        match after_prefix(attrs.last(), ascii("=message="@)) {
            Some(text) => earlier + text,
            None => earlier,
        }
    }
}

/// The failure that a sentence reports, if it reports one: a trap where its
/// first word is `!trap`, a fatal error where it is `!fatal`, with the second
/// word as the message.
pub open spec fn spec_is_mk_error(sentence: Seq<Seq<u8>>) -> Option<ErrorView> {
    if sentence.len() == 0 {
        None
    } else if sentence[0] == ascii("!trap"@) {
        Some(
            ErrorView::Trap {
                category: trap_category(sentence.skip(1)),
                msg: trap_message(sentence.skip(1)),
            },
        )
    } else if sentence[0] == ascii("!fatal"@) {
        Some(
            ErrorView::Fatal(
                if sentence.len() >= 2 {
                    sentence[1]
                } else {
                    ascii("No error message supplied from router!"@)
                },
            ),
        )
    } else {
        None
    }
}

/// Tells whether a sentence reports a failure, and which.
pub fn is_mk_error(sentence: &Vec<Vec<u8>>) -> (r: Option<MikrotikError>)
    ensures
        match r {
            Some(e) => spec_is_mk_error(word_views(sentence@)) == Some(e@),
            None => spec_is_mk_error(word_views(sentence@)).is_none(),
        },
{
    proof {
        reveal_strlit("!trap");
        reveal_strlit("!fatal");
        reveal_strlit("=category=");
        reveal_strlit("=message=");
        reveal_strlit("No error message supplied from router!");
    }
    let ghost ws = word_views(sentence@);
    if sentence.len() == 0 {
        return None;
    }
    assert(ws[0] == sentence@[0]@);
    if equals(sentence[0].as_slice(), "!trap") {
        let mut category: u8 = 10;
        let mut msg: Vec<u8> = Vec::new();
        let mut i: usize = 1;
        assert(ws.subrange(1, 1) =~= Seq::<Seq<u8>>::empty());
        while i < sentence.len()
            invariant
                1 <= i <= sentence@.len(),
                ws == word_views(sentence@),
                is_ascii("=category="),
                is_ascii("=message="),
                category == trap_category(ws.subrange(1, i as int)),
                msg@ == trap_message(ws.subrange(1, i as int)),
            decreases sentence@.len() - i,
        {
            let word = sentence[i].as_slice();
            proof {
                let upto = ws.subrange(1, i + 1);
                assert(upto.drop_last() =~= ws.subrange(1, i as int));
                assert(upto.last() == word@);
            }
            match strip_prefix(word, "=category=") {
                Some(text) => {
                    match parse_u8(text.as_slice()) {
                        Some(c) => {
                            category = c;
                        },
                        None => {},
                    }
                },
                None => {},
            }
            match strip_prefix(word, "=message=") {
                Some(text) => {
                    append_bytes(&mut msg, text.as_slice());
                },
                None => {},
            }
            i += 1;
        }
        assert(ws.subrange(1, sentence@.len() as int) =~= ws.skip(1));
        Some(MikrotikError::Trap { category, msg })
    } else if equals(sentence[0].as_slice(), "!fatal") {
        if sentence.len() >= 2 {
            let msg = copy_range(sentence[1].as_slice(), 0, sentence[1].len());
            assert(msg@ =~= ws[1]);
            Some(MikrotikError::Fatal(msg))
        } else {
            Some(MikrotikError::Fatal(bytes_of("No error message supplied from router!")))
        }
    } else {
        None
    }
}


/// What reading a reply comes to, as contracts speak of it.
pub enum ReplyView {
    /// The bytes end before the reply does.
    Short,
    /// A sentence reported a failure; the place behind that sentence.
    Failed(ErrorView, int),
    /// The words of the reply, its last sentence included, and the place
    /// behind it.
    Done(Seq<Seq<u8>>, int),
}

/// What reading a reply comes to.
pub enum Reply {
    /// The bytes end before the reply does.
    Short,
    /// A sentence reported a failure; the place behind that sentence.
    Failed(MikrotikError, usize),
    /// The words of the reply, its last sentence included, and the place
    /// behind it.
    Done(Vec<Vec<u8>>, usize),
}

impl View for Reply {
    type V = ReplyView;

    open spec fn view(&self) -> ReplyView {
        match *self {
            Reply::Short => ReplyView::Short,
            Reply::Failed(e, next) => ReplyView::Failed(e@, next as int),
            Reply::Done(words, next) => ReplyView::Done(word_views(words@), next as int),
        }
    }
}

/// Reading a reply from `pos` in `s`, with `acc` the words read so far.
/// Sentences are read one after the other. One without words is passed
/// over. One that reports a failure ends the reading with that failure.
/// The words of any other are added to the reply, and the reply ends with
/// the sentence whose first word is `!done`.
pub open spec fn spec_decode_reply(s: Seq<u8>, pos: int, acc: Seq<Seq<u8>>) -> ReplyView
    decreases s.len() - pos,
{
    match spec_decode_sentence(s, pos) {
        None => ReplyView::Short,
        Some((sentence, p)) => if p <= pos || p > s.len() {
            ReplyView::Short
        } else if sentence.len() == 0 {
            spec_decode_reply(s, p, acc)
        } else {
            match spec_is_mk_error(sentence) {
                Some(e) => ReplyView::Failed(e, p),
                None => if sentence[0] == ascii("!done"@) {
                    ReplyView::Done(acc + sentence, p)
                } else {
                    spec_decode_reply(s, p, acc + sentence)
                },
            }
        },
    }
}

/// A sentence takes at least one byte, and none behind the end.
pub proof fn lemma_sentence_advances(s: Seq<u8>, pos: int)
    ensures
        match spec_decode_sentence(s, pos) {
            Some((_, p)) => pos < p <= s.len(),
            None => true,
        },
    decreases s.len() - pos,
{
    match spec_decode_word(s, pos) {
        Some((w, p)) => {
            if w.len() != 0 && pos < p {
                lemma_sentence_advances(s, p);
            }
        },
        None => {},
    }
}

/// Reads the reply at `pos` in `buf`.
pub fn decode_reply(buf: &[u8], pos: usize) -> (r: Reply)
    ensures
        r@ == spec_decode_reply(buf@, pos as int, Seq::<Seq<u8>>::empty()),
{
    let mut acc: Vec<Vec<u8>> = Vec::new();
    let mut cur: usize = pos;
    assert(word_views(acc@) =~= Seq::<Seq<u8>>::empty());
    loop
        invariant
            spec_decode_reply(buf@, pos as int, Seq::<Seq<u8>>::empty()) == spec_decode_reply(
                buf@,
                cur as int,
                word_views(acc@),
            ),
        decreases buf@.len() - cur,
    {
        proof {
            lemma_sentence_advances(buf@, cur as int);
            reveal_strlit("!done");
        }
        match decode_sentence(buf, cur) {
            None => {
                return Reply::Short;
            },
            Some((mut sentence, next)) => {
                if sentence.len() > 0 {
                    match is_mk_error(&sentence) {
                        Some(e) => {
                            return Reply::Failed(e, next);
                        },
                        None => {},
                    }
                    let ghost before = word_views(acc@);
                    let ghost added = word_views(sentence@);
                    assert(added[0] == sentence@[0]@);
                    let last = equals(sentence[0].as_slice(), "!done");
                    acc.append(&mut sentence);
                    assert(word_views(acc@) =~= before + added);
                    if last {
                        return Reply::Done(acc, next);
                    }
                }
                cur = next;
            },
        }
    }
}

} // verus!
