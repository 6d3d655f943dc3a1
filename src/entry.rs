use vstd::prelude::*;

verus! {

/// The byte that ends every record of a cache entry.
pub const NEWLINE: u8 = 10;

/// A serialized record fits on one line.
pub open spec fn is_line(l: Seq<u8>) -> bool {
    forall|i: int| 0 <= i < l.len() ==> #[trigger] l[i] != NEWLINE
}

pub open spec fn all_lines(ls: Seq<Seq<u8>>) -> bool {
    forall|i: int| 0 <= i < ls.len() ==> is_line(#[trigger] ls[i])
}

/// The content of a cache entry that holds the records `ls`, in order, each
/// followed by a newline.
pub open spec fn join_lines(ls: Seq<Seq<u8>>) -> Seq<u8>
    decreases ls.len(),
{
    if ls.len() == 0 {
        Seq::empty()
    } else {
        ls[0] + seq![NEWLINE] + join_lines(ls.drop_first())
    }
}

pub open spec fn lines_view(v: Seq<Vec<u8>>) -> Seq<Seq<u8>> {
    v.map_values(|l: Vec<u8>| l@)
}

proof fn lemma_join_push(ls: Seq<Seq<u8>>, l: Seq<u8>)
    ensures
        join_lines(ls.push(l)) == join_lines(ls) + l + seq![NEWLINE],
    decreases ls.len(),
{
    if ls.len() == 0 {
        assert(ls.push(l).drop_first() =~= Seq::<Seq<u8>>::empty());
        assert(ls.push(l)[0] == l);
        assert(join_lines(ls.push(l).drop_first()) == Seq::<u8>::empty());
        assert(join_lines(ls) == Seq::<u8>::empty());
        assert(join_lines(ls.push(l)) =~= join_lines(ls) + l + seq![NEWLINE]);
    } else {
        assert(ls.push(l).drop_first() =~= ls.drop_first().push(l));
        lemma_join_push(ls.drop_first(), l);
        assert(join_lines(ls.push(l)) =~= join_lines(ls) + l + seq![NEWLINE]);
    }
}

/// Reading back what was written: when two sequences of one-line records
/// frame to the same bytes, they are the same records in the same order.
/// Together with the contracts of `frame_record` and `split_records`, a
/// cache entry read back yields exactly the records written into it.
pub proof fn lemma_records_round_trip(written: Seq<Seq<u8>>, read: Seq<Seq<u8>>)
    requires
        all_lines(written),
        all_lines(read),
        join_lines(written) == join_lines(read),
    ensures
        written == read,
    decreases written.len(),
{
    if written.len() == 0 || read.len() == 0 {
        if written.len() != 0 {
            assert(join_lines(written).len() > 0);
        }
        if read.len() != 0 {
            assert(join_lines(read).len() > 0);
        }
        assert(written =~= read);
    } else {
        let w = written[0];
        let r = read[0];
        let jw = join_lines(written);
        assert(jw == w + seq![NEWLINE] + join_lines(written.drop_first()));
        assert(join_lines(read) == r + seq![NEWLINE] + join_lines(read.drop_first()));
        assert(is_line(w));
        assert(is_line(r));
        if w.len() < r.len() {
            assert(jw[w.len() as int] == NEWLINE);
            assert(jw[w.len() as int] == r[w.len() as int]);
        } else if r.len() < w.len() {
            assert(jw[r.len() as int] == NEWLINE);
            assert(jw[r.len() as int] == w[r.len() as int]);
        }
        assert(w.len() == r.len());
        assert(w =~= jw.subrange(0, w.len() as int));
        assert(r =~= jw.subrange(0, r.len() as int));
        assert(join_lines(written.drop_first()) =~= jw.subrange(w.len() as int + 1, jw.len() as int));
        assert(join_lines(read.drop_first()) =~= jw.subrange(r.len() as int + 1, jw.len() as int));
        assert(all_lines(written.drop_first()));
        assert(all_lines(read.drop_first()));
        lemma_records_round_trip(written.drop_first(), read.drop_first());
        assert(written =~= read.drop_first().insert(0, r));
        assert(read =~= read.drop_first().insert(0, r));
    }
}

/// The bytes appended to a cache entry for one serialized record: the record
/// and a newline. `None` when the record does not fit on one line.
pub fn frame_record(record: &[u8]) -> (r: Option<Vec<u8>>)
    ensures
        r is Some <==> is_line(record@),
        r matches Some(bytes) ==> bytes@ == record@ + seq![NEWLINE],
{
    let mut out: Vec<u8> = Vec::new();
    let mut i: usize = 0;
    while i < record.len()
        invariant
            i <= record@.len(),
            out@ == record@.subrange(0, i as int),
            is_line(out@),
        decreases record@.len() - i,
    {
        if record[i] == NEWLINE {
            return None;
        }
        out.push(record[i]);
        i = i + 1;
        assert(out@ =~= record@.subrange(0, i as int));
    }
    assert(out@ =~= record@);
    out.push(NEWLINE);
    Some(out)
}

/// Splits the content of a cache entry into its records. `None` when the
/// content is cut off inside a record, that is, does not end with a newline.
pub fn split_records(content: &[u8]) -> (r: Option<Vec<Vec<u8>>>)
    ensures
        r is None <==> (content@.len() > 0 && content@.last() != NEWLINE),
        r matches Some(ls) ==> all_lines(lines_view(ls@)) && join_lines(lines_view(ls@))
            == content@,
{
    let mut out: Vec<Vec<u8>> = Vec::new();
    let mut cur: Vec<u8> = Vec::new();
    let mut i: usize = 0;
    while i < content.len()
        invariant
            i <= content@.len(),
            all_lines(lines_view(out@)),
            is_line(cur@),
            join_lines(lines_view(out@)) + cur@ == content@.subrange(0, i as int),
            cur@.len() == 0 ==> (i == 0 || content@[i - 1] == NEWLINE),
            cur@.len() > 0 ==> content@[i - 1] == cur@.last(),
        decreases content@.len() - i,
    {
        let b = content[i];
        if b == NEWLINE {
            let line = cur;
            cur = Vec::new();
            let ghost prev = lines_view(out@);
            proof {
                lemma_join_push(prev, line@);
            }
            out.push(line);
            assert(lines_view(out@) =~= prev.push(line@));
        } else {
            cur.push(b);
        }
        i = i + 1;
        assert(join_lines(lines_view(out@)) + cur@ =~= content@.subrange(0, i as int));
    }
    assert(content@.subrange(0, i as int) =~= content@);
    if cur.len() > 0 {
        None
    } else {
        assert(join_lines(lines_view(out@)) =~= content@);
        Some(out)
    }
}

} // verus!
