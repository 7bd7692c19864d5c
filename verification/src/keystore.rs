use vstd::prelude::*;

verus! {

// ---------------------------------------------------------------------------
// The key-file grammar, as specification.
//
// A key file is UTF-8 text, one record per line, the two fields of a record
// separated by a single `|`. Blank lines (and a trailing carriage return on
// any line) are ignored.
// ---------------------------------------------------------------------------

/// The text split at every newline. The segment after the last newline,
/// possibly empty, is always included, so the result is never empty.
pub open spec fn line_segments(s: Seq<char>) -> Seq<Seq<char>>
    decreases s.len(),
{
    if s.len() == 0 {
        seq![Seq::<char>::empty()]
    } else if s.last() == '\n' {
        line_segments(s.drop_last()).push(Seq::<char>::empty())
    } else {
        let init = line_segments(s.drop_last());
        init.update(init.len() - 1, init.last().push(s.last()))
    }
}

proof fn lemma_line_segments_nonempty(s: Seq<char>)
    ensures
        line_segments(s).len() >= 1,
    decreases s.len(),
{
    if s.len() > 0 {
        lemma_line_segments_nonempty(s.drop_last());
    }
}

/// Splits the raw text at newlines, keeping every segment.
fn split_lines(s: &str) -> (r: Vec<String>)
    ensures
        r.deep_view() == line_segments(s@),
{
    let n = s.unicode_len();
    let mut out: Vec<String> = Vec::new();
    let mut start: usize = 0;
    let mut i: usize = 0;
    while i < n
        invariant
            start <= i <= n,
            n == s@.len(),
            line_segments(s@.subrange(0, i as int)) =~~= out.deep_view().push(
                s@.subrange(start as int, i as int),
            ),
        decreases n - i,
    {
        let c = s.get_char(i);
        proof {
            let t = s@.subrange(0, i as int + 1);
            assert(t =~= s@.subrange(0, i as int).push(s@[i as int]));
            assert(t.drop_last() =~= s@.subrange(0, i as int));
            lemma_line_segments_nonempty(s@.subrange(0, i as int));
        }
        if c == '\n' {
            let seg = s.substring_char(start, i);
            out.push(String::from_str(seg));
            proof {
                assert(s@.subrange(0, i as int + 1).last() == '\n');
                assert(line_segments(s@.subrange(0, i as int + 1)) =~~= out.deep_view().push(
                    s@.subrange(i as int + 1, i as int + 1),
                ));
            }
            start = i + 1;
        } else {
            proof {
                let t = s@.subrange(0, i as int + 1);
                let init = line_segments(s@.subrange(0, i as int));
                assert(line_segments(t) == init.update(init.len() - 1, init.last().push(s@[i as int])));
                assert(s@.subrange(start as int, i as int).push(s@[i as int]) =~= s@.subrange(
                    start as int,
                    i as int + 1,
                ));
                assert(line_segments(t) =~~= out.deep_view().push(
                    s@.subrange(start as int, i as int + 1),
                ));
            }
        }
        i += 1;
    }
    let last_seg = s.substring_char(start, n);
    out.push(String::from_str(last_seg));
    proof {
        assert(s@.subrange(0, n as int) =~= s@);
        assert(out.deep_view() =~~= line_segments(s@));
    }
    out
}

/// A line with any trailing carriage return removed.
pub open spec fn strip_cr(l: Seq<char>) -> Seq<char> {
    if l.len() > 0 && l.last() == '\r' {
        l.drop_last()
    } else {
        l
    }
}

/// The record lines among the given line segments: every segment that is
/// still non-empty once a trailing carriage return is removed, in order.
pub open spec fn record_lines_of(segs: Seq<Seq<char>>) -> Seq<Seq<char>>
    decreases segs.len(),
{
    if segs.len() == 0 {
        Seq::empty()
    } else {
        let init = record_lines_of(segs.drop_last());
        let l = strip_cr(segs.last());
        if l.len() == 0 {
            init
        } else {
            init.push(l)
        }
    }
}

/// The record lines of the raw key-file text.
pub open spec fn record_lines(s: Seq<char>) -> Seq<Seq<char>> {
    record_lines_of(line_segments(s))
}

proof fn lemma_record_lines_of_concat(a: Seq<Seq<char>>, b: Seq<Seq<char>>)
    ensures
        record_lines_of(a + b) == record_lines_of(a) + record_lines_of(b),
    decreases b.len(),
{
    if b.len() == 0 {
        assert(a + b =~= a);
        assert(record_lines_of(a) + record_lines_of(b) =~= record_lines_of(a));
    } else {
        lemma_record_lines_of_concat(a, b.drop_last());
        assert((a + b).drop_last() =~= a + b.drop_last());
        assert((a + b).last() == b.last());
        if strip_cr(b.last()).len() == 0 {
            assert(record_lines_of(a + b) == record_lines_of(a) + record_lines_of(b.drop_last()));
        } else {
            assert(record_lines_of(a) + record_lines_of(b.drop_last()).push(strip_cr(b.last()))
                =~= (record_lines_of(a) + record_lines_of(b.drop_last())).push(strip_cr(b.last())));
        }
    }
}

/// Splits a line at its first delimiter: the part before it and the part
/// after it, or `None` if the line holds no delimiter at all.
pub open spec fn split_at_first_bar(l: Seq<char>) -> Option<(Seq<char>, Seq<char>)>
    decreases l.len(),
{
    if l.len() == 0 {
        None
    } else if l[0] == '|' {
        Some((Seq::empty(), l.drop_first()))
    } else {
        match split_at_first_bar(l.drop_first()) {
            None => None,
            Some(p) => Some((seq![l[0]] + p.0, p.1)),
        }
    }
}

/// A record line parses exactly when it holds a single `|`: the private key
/// is what stands before it, the target address what stands after it.
pub open spec fn parse_record(l: Seq<char>) -> Option<(Seq<char>, Seq<char>)> {
    match split_at_first_bar(l) {
        None => None,
        Some(p) => if p.1.contains('|') {
            None
        } else {
            Some(p)
        },
    }
}

proof fn lemma_split_none(l: Seq<char>)
    requires
        forall|j: int| 0 <= j < l.len() ==> l[j] != '|',
    ensures
        split_at_first_bar(l) is None,
    decreases l.len(),
{
    if l.len() > 0 {
        lemma_split_none(l.drop_first());
    }
}

proof fn lemma_split_at_index(l: Seq<char>, i: int)
    requires
        0 <= i < l.len(),
        l[i] == '|',
        forall|j: int| 0 <= j < i ==> l[j] != '|',
    ensures
        split_at_first_bar(l) == Some((l.subrange(0, i), l.subrange(i + 1, l.len() as int))),
    decreases i,
{
    if i == 0 {
        assert(l.subrange(0, 0) =~= Seq::<char>::empty());
        assert(l.subrange(1, l.len() as int) =~= l.drop_first());
    } else {
        lemma_split_at_index(l.drop_first(), i - 1);
        assert(seq![l[0]] + l.drop_first().subrange(0, i - 1) =~= l.subrange(0, i));
        assert(l.drop_first().subrange(i, l.len() - 1) =~= l.subrange(i + 1, l.len() as int));
    }
}

// ---------------------------------------------------------------------------
// Records and the store.
// ---------------------------------------------------------------------------

/// One record of the key file: a private key and the address its funds are
/// swept to.
#[derive(Debug)]
pub struct KeyRecord {
    pub private_key: String,
    pub target_address: String,
}

impl View for KeyRecord {
    type V = (Seq<char>, Seq<char>);

    open spec fn view(&self) -> (Seq<char>, Seq<char>) {
        (self.private_key@, self.target_address@)
    }
}

impl DeepView for KeyRecord {
    type V = (Seq<char>, Seq<char>);

    open spec fn deep_view(&self) -> (Seq<char>, Seq<char>) {
        self.view()
    }
}

/// The parse of a sequence of record lines: `None` as soon as any one line
/// is malformed.
pub open spec fn parse_records(lines: Seq<Seq<char>>) -> Option<Seq<(Seq<char>, Seq<char>)>>
    decreases lines.len(),
{
    if lines.len() == 0 {
        Some(Seq::empty())
    } else {
        match (parse_records(lines.drop_last()), parse_record(lines.last())) {
            (Some(rs), Some(r)) => Some(rs.push(r)),
            _ => None,
        }
    }
}

/// The whole key file: its record lines, each parsed.
pub open spec fn parse_key_file(s: Seq<char>) -> Option<Seq<(Seq<char>, Seq<char>)>> {
    parse_records(record_lines(s))
}

/// Every private key of the records, in file order (duplicates kept).
pub open spec fn key_order(recs: Seq<(Seq<char>, Seq<char>)>) -> Seq<Seq<char>> {
    recs.map_values(|r: (Seq<char>, Seq<char>)| r.0)
}

/// The key-to-target association of the records: for a duplicated key, a
/// later record wins over an earlier one.
pub open spec fn target_map(recs: Seq<(Seq<char>, Seq<char>)>) -> Map<Seq<char>, Seq<char>>
    decreases recs.len(),
{
    if recs.len() == 0 {
        Map::empty()
    } else {
        target_map(recs.drop_last()).insert(recs.last().0, recs.last().1)
    }
}

proof fn lemma_parse_records_each(lines: Seq<Seq<char>>)
    requires
        parse_records(lines) is Some,
    ensures
        parse_records(lines)->0.len() == lines.len(),
        forall|j: int| 0 <= j < lines.len() ==> #[trigger] parse_record(lines[j]) is Some
            && parse_records(lines)->0[j] == parse_record(lines[j])->0,
    decreases lines.len(),
{
    if lines.len() > 0 {
        lemma_parse_records_each(lines.drop_last());
        assert(forall|j: int| 0 <= j < lines.len() - 1 ==> lines.drop_last()[j] == lines[j]);
    }
}

proof fn lemma_parse_records_none(lines: Seq<Seq<char>>, j: int)
    requires
        0 <= j < lines.len(),
        parse_record(lines[j]) is None,
    ensures
        parse_records(lines) is None,
    decreases lines.len(),
{
    if j < lines.len() - 1 {
        lemma_parse_records_none(lines.drop_last(), j);
    }
}

proof fn lemma_target_map_skip(recs: Seq<(Seq<char>, Seq<char>)>, j: int, k: Seq<char>)
    requires
        0 <= j <= recs.len(),
        forall|m: int| j <= m < recs.len() ==> recs[m].0 != k,
    ensures
        target_map(recs).contains_key(k) <==> target_map(recs.subrange(0, j)).contains_key(k),
        target_map(recs).contains_key(k) ==> target_map(recs)[k] == target_map(
            recs.subrange(0, j),
        )[k],
    decreases recs.len() - j,
{
    if j == recs.len() {
        assert(recs.subrange(0, j) =~= recs);
    } else {
        lemma_target_map_skip(recs.drop_last(), j, k);
        assert(recs.drop_last().subrange(0, j) =~= recs.subrange(0, j));
    }
}

/// Parses one record line: `Some` exactly when the line holds a single `|`.
fn parse_record_line(line: &str) -> (r: Option<KeyRecord>)
    ensures
        r is Some <==> parse_record(line@) is Some,
        r matches Some(rec) ==> Some(rec@) == parse_record(line@),
{
    let n = line.unicode_len();
    let mut first: Option<usize> = None;
    let ghost mut second: int = 0;
    let mut extra: bool = false;
    let mut i: usize = 0;
    while i < n
        invariant
            i <= n,
            n == line@.len(),
            first is None ==> !extra && forall|j: int| 0 <= j < i ==> line@[j] != '|',
            first is Some ==> first->0 < i && line@[first->0 as int] == '|',
            first is Some ==> forall|j: int| 0 <= j < first->0 ==> line@[j] != '|',
            first is Some && !extra ==> forall|j: int| first->0 < j < i ==> line@[j] != '|',
            extra ==> first is Some && first->0 < second < i && line@[second] == '|',
        decreases n - i,
    {
        let c = line.get_char(i);
        if c == '|' {
            match first {
                None => {
                    first = Some(i);
                },
                Some(_) => {
                    if !extra {
                        proof {
                            second = i as int;
                        }
                        extra = true;
                    }
                },
            }
        }
        i += 1;
    }
    match first {
        None => {
            proof {
                lemma_split_none(line@);
            }
            None
        },
        Some(f) => {
            if extra {
                proof {
                    lemma_split_at_index(line@, f as int);
                    let rest = line@.subrange(f as int + 1, n as int);
                    assert(rest[second - f - 1] == '|');
                    assert(rest.contains('|'));
                }
                None
            } else {
                let key = line.substring_char(0, f);
                let target = line.substring_char(f + 1, n);
                proof {
                    lemma_split_at_index(line@, f as int);
                    let rest = line@.subrange(f as int + 1, n as int);
                    assert(forall|j: int| 0 <= j < rest.len() ==> rest[j] != '|');
                    assert(!rest.contains('|'));
                }
                Some(KeyRecord {
                    private_key: String::from_str(key),
                    target_address: String::from_str(target),
                })
            }
        },
    }
}

/// Error of [`KeyStore::load`]: the key file is malformed. `record_index`
/// is the position, among the file's record lines, of the first line that
/// does not parse.
#[derive(Debug)]
pub struct ParseError {
    pub record_index: usize,
}

/// Error of [`KeyStore::lookup`]: the key was not present at load time.
#[derive(Debug)]
pub struct UnknownKeyError {
    pub key: String,
}

/// The association built once from the key file: every record in file
/// order, together with the key-to-target mapping they induce. Never
/// mutated after [`KeyStore::load`].
#[derive(Debug)]
pub struct KeyStore {
    records: Vec<KeyRecord>,
}

impl KeyStore {
    /// Every record of the key file, in file order.
    pub closed spec fn records(&self) -> Seq<(Seq<char>, Seq<char>)> {
        self.records.deep_view()
    }

    /// Every private key, in file order.
    pub open spec fn keys(&self) -> Seq<Seq<char>> {
        key_order(self.records())
    }

    /// The key-to-target association.
    pub open spec fn targets(&self) -> Map<Seq<char>, Seq<char>> {
        target_map(self.records())
    }

    /// Parses the raw key-file text into a store: `Ok` exactly when every
    /// non-blank line holds a single `|`; otherwise the index of the first
    /// malformed record line.
    pub fn load(raw: &str) -> (r: Result<KeyStore, ParseError>)
        ensures
            r is Ok <==> parse_key_file(raw@) is Some,
            r matches Ok(ks) ==> Some(ks.records()) == parse_key_file(raw@),
            r matches Err(e) ==> e.record_index < record_lines(raw@).len() && parse_record(
                record_lines(raw@)[e.record_index as int],
            ) is None && forall|j: int|
                0 <= j < e.record_index ==> #[trigger] parse_record(
                    record_lines(raw@)[j],
                ) is Some,
    {
        let segs = split_lines(raw);
        let n = segs.len();
        let mut records: Vec<KeyRecord> = Vec::new();
        let mut i: usize = 0;
        proof {
            assert(segs.deep_view().subrange(0, 0) =~~= Seq::<Seq<char>>::empty());
        }
        while i < n
            invariant
                i <= n,
                n == segs@.len(),
                segs.deep_view() == line_segments(raw@),
                parse_records(record_lines_of(segs.deep_view().subrange(0, i as int))) == Some(
                    records.deep_view(),
                ),
            decreases n - i,
        {
            let ghost segs_dv = segs.deep_view();
            let ghost rl_i = record_lines_of(segs_dv.subrange(0, i as int));
            let seg: &String = &segs[i];
            let l: &str = seg.as_str();
            let ln = l.unicode_len();
            let line: &str = if ln > 0 && l.get_char(ln - 1) == '\r' {
                l.substring_char(0, ln - 1)
            } else {
                l
            };
            proof {
                assert(line@ == strip_cr(segs_dv[i as int]));
                assert(segs_dv.subrange(0, i as int + 1).drop_last() =~~= segs_dv.subrange(
                    0,
                    i as int,
                ));
                assert(segs_dv.subrange(0, i as int + 1).last() == segs_dv[i as int]);
            }
            if line.unicode_len() > 0 {
                match parse_record_line(line) {
                    Some(rec) => {
                        records.push(rec);
                        proof {
                            assert(record_lines_of(segs_dv.subrange(0, i as int + 1)) =~~=
                                rl_i.push(line@));
                            assert(rl_i.push(line@).drop_last() =~~= rl_i);
                        }
                    },
                    None => {
                        proof {
                            lemma_parse_records_each(rl_i);
                            let full = segs_dv;
                            let a = full.subrange(0, i as int);
                            let b = full.subrange(i as int, n as int);
                            assert(full =~~= a + b);
                            lemma_record_lines_of_concat(a, b);
                            let c = seq![full[i as int]];
                            let d = full.subrange(i as int + 1, n as int);
                            assert(b =~~= c + d);
                            lemma_record_lines_of_concat(c, d);
                            assert(c.drop_last() =~~= Seq::<Seq<char>>::empty());
                            assert(record_lines_of(Seq::<Seq<char>>::empty())
                                == Seq::<Seq<char>>::empty());
                            assert(c.last() == full[i as int]);
                            assert(strip_cr(c.last()) == line@);
                            assert(line@.len() > 0);
                            assert(record_lines_of(c) =~~= seq![line@]);
                            assert(record_lines(raw@) =~~= rl_i + seq![line@] + record_lines_of(
                                d,
                            ));
                            assert(record_lines(raw@)[rl_i.len() as int] == line@);
                            assert(forall|j: int| 0 <= j < rl_i.len() ==> record_lines(raw@)[j]
                                == rl_i[j]);
                            lemma_parse_records_none(record_lines(raw@), rl_i.len() as int);
                        }
                        return Err(ParseError { record_index: records.len() });
                    },
                }
            } else {
                proof {
                    assert(record_lines_of(segs_dv.subrange(0, i as int + 1)) =~~= rl_i);
                }
            }
            i += 1;
        }
        proof {
            assert(segs.deep_view().subrange(0, n as int) =~~= segs.deep_view());
        }
        Ok(KeyStore { records })
    }

    /// The target address paired with the key, or `UnknownKeyError` if the
    /// key file held no record for it. For a duplicated key the target of
    /// the last record wins.
    pub fn lookup(&self, key: &str) -> (r: Result<String, UnknownKeyError>)
        ensures
            r is Ok <==> self.targets().contains_key(key@),
            r matches Ok(t) ==> t@ == self.targets()[key@],
            r matches Err(e) ==> e.key@ == key@,
    {
        let k = key.to_owned();
        let n = self.records.len();
        let mut j: usize = n;
        while j > 0
            invariant
                j <= n,
                n == self.records@.len(),
                k@ == key@,
                forall|m: int| j <= m < n ==> self.records.deep_view()[m].0 != key@,
            decreases j,
        {
            j = j - 1;
            if self.records[j].private_key == k {
                let t = self.records[j].target_address.clone();
                proof {
                    lemma_target_map_skip(self.records(), j as int + 1, key@);
                    let pre = self.records().subrange(0, j as int + 1);
                    assert(pre.drop_last() =~= self.records().subrange(0, j as int));
                    assert(pre.last() == self.records()[j as int]);
                }
                return Ok(t);
            }
        }
        proof {
            lemma_target_map_skip(self.records(), 0, key@);
            assert(self.records().subrange(0, 0) =~= Seq::<(Seq<char>, Seq<char>)>::empty());
        }
        Err(UnknownKeyError { key: k })
    }

    /// Every private key, in file order, one entry per record line; used to
    /// build the single bulk restore request.
    pub fn all_private_keys(&self) -> (r: Vec<String>)
        ensures
            r.deep_view() == self.keys(),
    {
        let mut out: Vec<String> = Vec::new();
        let mut i: usize = 0;
        while i < self.records.len()
            invariant
                i <= self.records@.len(),
                out.deep_view().len() == i,
                forall|m: int| 0 <= m < i ==> out.deep_view()[m] == self.records.deep_view()[m].0,
            decreases self.records@.len() - i,
        {
            let key = self.records[i].private_key.clone();
            let ghost pre = out.deep_view();
            out.push(key);
            proof {
                assert forall|m: int| 0 <= m < i + 1 implies out.deep_view()[m]
                    == self.records.deep_view()[m].0 by {
                    if m < i {
                        assert(out.deep_view()[m] == pre[m]);
                    } else {
                        assert(out.deep_view()[m] == self.records@[i as int].private_key@);
                    }
                }
            }
            i += 1;
        }
        proof {
            assert(out.deep_view() =~~= self.keys());
        }
        out
    }
}

/// With all private keys distinct, the association is exact: every record's
/// key maps to precisely its paired target address, and only keys that some
/// record holds are mapped at all.
pub proof fn lemma_target_map_exact(recs: Seq<(Seq<char>, Seq<char>)>)
    requires
        forall|i: int, j: int| 0 <= i < j < recs.len() ==> recs[i].0 != recs[j].0,
    ensures
        forall|i: int| 0 <= i < recs.len() ==> target_map(recs).contains_key(
            (#[trigger] recs[i]).0,
        ) && target_map(recs)[recs[i].0] == recs[i].1,
        forall|k: Seq<char>| #[trigger] target_map(recs).contains_key(k) ==> exists|i: int|
            0 <= i < recs.len() && recs[i].0 == k,
    decreases recs.len(),
{
    if recs.len() > 0 {
        let init = recs.drop_last();
        lemma_target_map_exact(init);
        assert(forall|i: int| 0 <= i < init.len() ==> init[i] == recs[i]);
        assert forall|i: int| 0 <= i < recs.len() implies target_map(recs).contains_key(
            (#[trigger] recs[i]).0,
        ) && target_map(recs)[recs[i].0] == recs[i].1 by {
            if i < recs.len() - 1 {
                assert(target_map(init).contains_key(recs[i].0));
                assert(recs[i].0 != recs.last().0);
            }
        }
        assert forall|k: Seq<char>| #[trigger] target_map(recs).contains_key(k) implies exists|
            i: int,
        |
            0 <= i < recs.len() && recs[i].0 == k by {
            if k == recs.last().0 {
                assert(recs[recs.len() - 1].0 == k);
            } else {
                assert(target_map(init).contains_key(k));
                let i = choose|i: int| 0 <= i < init.len() && init[i].0 == k;
                assert(recs[i].0 == k);
            }
        }
    }
}

} // verus!
