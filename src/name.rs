//! Domain names as DNS label sequences: each label prefixed by its length, ended by the root label.
use vstd::prelude::*;
use crate::error::EncodingError;
use vstd::string::StringSliceAdditionalSpecFns;

verus! {

/// The label delimiter, `.`.
pub const DOT: u8 = 46;

/// The longest label the wire format admits.
pub const MAX_LABEL_LEN: usize = 63;

/// The longest encoded name the wire format admits.
pub const MAX_NAME_LEN: usize = 255;

/// The labels of `s`: its pieces between delimiters, in order (one label when `s` has no `.`).
pub open spec fn labels(s: Seq<u8>) -> Seq<Seq<u8>>
    decreases s.len(),
{
    if s.len() == 0 {
        seq![Seq::empty()]
    } else {
        let prev = labels(s.drop_last());
        if s.last() == DOT {
            prev.push(Seq::empty())
        } else {
            prev.update(prev.len() - 1, prev.last().push(s.last()))
        }
    }
}

/// Each label as one length byte followed by its bytes, in order.
pub open spec fn encode_labels(ls: Seq<Seq<u8>>) -> Seq<u8>
    decreases ls.len(),
{
    if ls.len() == 0 {
        Seq::empty()
    } else {
        encode_labels(ls.drop_last()) + seq![ls.last().len() as u8] + ls.last()
    }
}

/// Some label of `ls` is empty.
pub open spec fn has_empty_label(ls: Seq<Seq<u8>>) -> bool {
    exists|k: int| 0 <= k < ls.len() && #[trigger] ls[k].len() == 0
}

/// Some label of `ls` is longer than 63 bytes.
pub open spec fn has_long_label(ls: Seq<Seq<u8>>) -> bool {
    exists|k: int| 0 <= k < ls.len() && #[trigger] ls[k].len() > MAX_LABEL_LEN
}

/// What encoding the name `s` gives: the error of the first constraint it breaks, in the
/// order empty label, label too long, name too long; else the label sequence and a zero byte.
pub open spec fn name_encoding(s: Seq<u8>) -> Result<Seq<u8>, EncodingError> {
    let ls = labels(s);
    if has_empty_label(ls) {
        Err(EncodingError::EmptyLabel)
    } else if has_long_label(ls) {
        Err(EncodingError::LabelTooLong)
    } else {
        let e = encode_labels(ls) + seq![0u8];
        if e.len() > MAX_NAME_LEN {
            Err(EncodingError::NameTooLong)
        } else {
            Ok(e)
        }
    }
}

proof fn lemma_labels_len(s: Seq<u8>)
    ensures
        labels(s).len() >= 1,
    decreases s.len(),
{
    if s.len() > 0 {
        lemma_labels_len(s.drop_last());
    }
}

proof fn lemma_labels_step(s: Seq<u8>, i: int)
    requires
        0 <= i < s.len(),
    ensures
        labels(s.take(i + 1)) == (if s[i] == DOT {
            labels(s.take(i)).push(Seq::empty())
        } else {
            labels(s.take(i)).update(
                labels(s.take(i)).len() - 1,
                labels(s.take(i)).last().push(s[i]),
            )
        }),
{
    assert(s.take(i + 1).drop_last() =~= s.take(i));
}

proof fn lemma_push_label(ls: Seq<Seq<u8>>, l: Seq<u8>)
    ensures
        has_empty_label(ls.push(l)) == (has_empty_label(ls) || l.len() == 0),
        has_long_label(ls.push(l)) == (has_long_label(ls) || l.len() > MAX_LABEL_LEN),
        encode_labels(ls.push(l)) == encode_labels(ls) + seq![l.len() as u8] + l,
{
    let p = ls.push(l);
    assert(p.drop_last() =~= ls);
    assert(p[ls.len() as int] == l);
    if has_empty_label(ls) {
        let k = choose|k: int| 0 <= k < ls.len() && #[trigger] ls[k].len() == 0;
        assert(p[k] == ls[k]);
    }
    if has_long_label(ls) {
        let k = choose|k: int| 0 <= k < ls.len() && #[trigger] ls[k].len() > MAX_LABEL_LEN;
        assert(p[k] == ls[k]);
    }
    if has_empty_label(p) {
        let k = choose|k: int| 0 <= k < p.len() && #[trigger] p[k].len() == 0;
        if k < ls.len() {
            assert(ls[k] == p[k]);
        }
    }
    if has_long_label(p) {
        let k = choose|k: int| 0 <= k < p.len() && #[trigger] p[k].len() > MAX_LABEL_LEN;
        if k < ls.len() {
            assert(ls[k] == p[k]);
        }
    }
}

proof fn lemma_labels_prefix(s: Seq<u8>, j: int, k: int)
    requires
        0 <= j <= k <= s.len(),
    ensures
        labels(s.take(k)).len() >= labels(s.take(j)).len(),
        forall|x: int|
            0 <= x < labels(s.take(j)).len() - 1 ==> #[trigger] labels(s.take(k))[x] == labels(
                s.take(j),
            )[x],
    decreases k - j,
{
    if k > j {
        lemma_labels_prefix(s, j, k - 1);
        lemma_labels_step(s, k - 1);
        lemma_labels_len(s.take(k - 1));
    }
}

/// A name without a delimiter is a single label.
pub proof fn lemma_single_label(s: Seq<u8>)
    requires
        forall|i: int| 0 <= i < s.len() ==> s[i] != DOT,
    ensures
        labels(s) == seq![s],
    decreases s.len(),
{
    if s.len() > 0 {
        lemma_single_label(s.drop_last());
        assert(s.drop_last().push(s.last()) =~= s);
        assert(s[s.len() - 1] != DOT);
        assert(seq![s.drop_last()].update(0, s.drop_last().push(s.last())) =~= seq![s]);
    } else {
        assert(s =~= Seq::<u8>::empty());
    }
}

/// A single label of more than 63 bytes fails with `LabelTooLong`; one of 1 to 63 bytes is
/// encoded as its length byte, its bytes and the root label.
pub proof fn lemma_label_length_boundary(s: Seq<u8>)
    requires
        forall|i: int| 0 <= i < s.len() ==> s[i] != DOT,
    ensures
        s.len() > MAX_LABEL_LEN ==> name_encoding(s) == Err::<Seq<u8>, EncodingError>(
            EncodingError::LabelTooLong,
        ),
        1 <= s.len() <= MAX_LABEL_LEN ==> name_encoding(s) == Ok::<Seq<u8>, EncodingError>(
            seq![s.len() as u8] + s + seq![0u8],
        ),
{
    lemma_single_label(s);
    let ls = seq![s];
    assert(ls[0] == s);
    assert(ls.drop_last() =~= Seq::<Seq<u8>>::empty());
    assert(encode_labels(ls) == encode_labels(ls.drop_last()) + seq![s.len() as u8] + s);
    assert(encode_labels(Seq::<Seq<u8>>::empty()) == Seq::<u8>::empty());
    assert(encode_labels(ls) =~= seq![s.len() as u8] + s);
    if s.len() > MAX_LABEL_LEN {
        assert(ls[0].len() > MAX_LABEL_LEN);
    }
}

/// A name with two consecutive delimiters fails with `EmptyLabel`.
pub proof fn lemma_consecutive_delimiters(s: Seq<u8>, i: int)
    requires
        0 <= i,
        i + 1 < s.len(),
        s[i] == DOT,
        s[i + 1] == DOT,
    ensures
        name_encoding(s) == Err::<Seq<u8>, EncodingError>(EncodingError::EmptyLabel),
{
    lemma_labels_step(s, i);
    lemma_labels_step(s, i + 1);
    let before = labels(s.take(i));
    let x = before.len() as int;
    assert(labels(s.take(i + 2))[x] == Seq::<u8>::empty());
    lemma_labels_prefix(s, i + 2, s.len() as int);
    assert(s.take(s.len() as int) =~= s);
    assert(labels(s)[x].len() == 0);
}

/// The empty name fails with `EmptyLabel`.
pub proof fn lemma_empty_name()
    ensures
        name_encoding(Seq::<u8>::empty()) == Err::<Seq<u8>, EncodingError>(
            EncodingError::EmptyLabel,
        ),
{
    assert(labels(Seq::<u8>::empty())[0].len() == 0);
}

pub(crate) fn append_range(out: &mut Vec<u8>, s: &[u8], from: usize, to: usize)
    requires
        from <= to <= s@.len(),
    ensures
        final(out)@ == old(out)@ + s@.subrange(from as int, to as int),
{
    let mut j: usize = from;
    while j < to
        invariant
            from <= j <= to <= s@.len(),
            out@ == old(out)@ + s@.subrange(from as int, j as int),
        decreases to - j,
    {
        out.push(s[j]);
        j = j + 1;
        assert(out@ =~= old(out)@ + s@.subrange(from as int, j as int));
    }
}

/// Records the label `s[start..end]`: notes whether it is empty or too long, and while no
/// label so far broke a constraint, appends its length byte and its bytes.
fn close_label(
    out: &mut Vec<u8>,
    s: &[u8],
    start: usize,
    end: usize,
    empty_seen: &mut bool,
    long_seen: &mut bool,
)
    requires
        start <= end <= s@.len(),
    ensures
        *final(empty_seen) == (*old(empty_seen) || end - start == 0),
        *final(long_seen) == (*old(long_seen) || end - start > MAX_LABEL_LEN),
        !*final(empty_seen) && !*final(long_seen) ==> final(out)@ == old(out)@ + seq![
            (end - start) as u8,
        ] + s@.subrange(start as int, end as int),
{
    let len = end - start;
    if len == 0 {
        *empty_seen = true;
    } else if len > MAX_LABEL_LEN {
        *long_seen = true;
    } else if !*empty_seen && !*long_seen {
        out.push(len as u8);
        append_range(out, s, start, end);
    }
}

fn encode_bytes(s: &[u8]) -> (r: Result<Vec<u8>, EncodingError>)
    ensures
        match r {
            Ok(v) => name_encoding(s@) == Ok::<Seq<u8>, EncodingError>(v@),
            Err(e) => name_encoding(s@) == Err::<Seq<u8>, EncodingError>(e),
        },
{
    let n = s.len();
    let mut out: Vec<u8> = Vec::new();
    let mut start: usize = 0;
    let mut i: usize = 0;
    let mut empty_seen = false;
    let mut long_seen = false;
    let ghost mut done: Seq<Seq<u8>> = Seq::empty();
    proof {
        assert(s@.take(0) =~= Seq::<u8>::empty());
        assert(done.push(s@.subrange(0, 0)) =~= seq![Seq::<u8>::empty()]);
    }
    while i < n
        invariant
            n == s@.len(),
            start <= i <= n,
            labels(s@.take(i as int)) == done.push(s@.subrange(start as int, i as int)),
            empty_seen == has_empty_label(done),
            long_seen == has_long_label(done),
            !empty_seen && !long_seen ==> out@ == encode_labels(done),
        decreases n - i,
    {
        proof {
            lemma_labels_step(s@, i as int);
        }
        if s[i] == DOT {
            let ghost cur = s@.subrange(start as int, i as int);
            close_label(&mut out, s, start, i, &mut empty_seen, &mut long_seen);
            proof {
                lemma_push_label(done, cur);
                done = done.push(cur);
                assert(s@.subrange(i + 1, i + 1) =~= Seq::<u8>::empty());
            }
            start = i + 1;
        } else {
            proof {
                let cur = s@.subrange(start as int, i as int);
                assert(cur.push(s@[i as int]) =~= s@.subrange(start as int, i + 1));
                assert(done.push(cur).update(done.len() as int, cur.push(s@[i as int]))
                    =~= done.push(s@.subrange(start as int, i + 1)));
            }
        }
        i = i + 1;
    }
    let ghost cur = s@.subrange(start as int, n as int);
    proof {
        assert(s@.take(n as int) =~= s@);
        lemma_push_label(done, cur);
        done = done.push(cur);
    }
    close_label(&mut out, s, start, n, &mut empty_seen, &mut long_seen);
    if empty_seen {
        Err(EncodingError::EmptyLabel)
    } else if long_seen {
        Err(EncodingError::LabelTooLong)
    } else if out.len() >= MAX_NAME_LEN {
        Err(EncodingError::NameTooLong)
    } else {
        out.push(0);
        assert(out@ =~= encode_labels(done) + seq![0u8]);
        Ok(out)
    }
}

/// Encodes a dotted domain name as a label sequence: for each label a length byte and the
/// label's bytes, then a zero byte. Fails on an empty label, a label over 63 bytes, or an
/// encoding over 255 bytes.
pub fn encode_name(name: &str) -> (r: Result<Vec<u8>, EncodingError>)
    ensures
        match r {
            Ok(v) => name_encoding(name.spec_bytes()) == Ok::<Seq<u8>, EncodingError>(v@),
            Err(e) => name_encoding(name.spec_bytes()) == Err::<Seq<u8>, EncodingError>(e),
        },
{
    encode_bytes(name.as_bytes())
}

} // verus!
