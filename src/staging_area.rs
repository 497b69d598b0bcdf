//! The staging index: a mapping from repository-relative path to content
//! digest, persisted as a ledger of `path||digest` lines.
use crate::error::KvcError;
use crate::text::{chars_of, has_no_newline, join_lines, lemma_split_join, lines_of, split_lines};
use vstd::prelude::*;

verus! {

/// The two-character field delimiter `||` starts at position `i` of `s`.
pub open spec fn delim_at(s: Seq<char>, i: int) -> bool {
    0 <= i && i + 1 < s.len() && s[i] == '|' && s[i + 1] == '|'
}

pub open spec fn is_last_delim(s: Seq<char>, i: int) -> bool {
    delim_at(s, i) && forall|j: int| i < j ==> !delim_at(s, j)
}

/// A ledger line read as a record: the path before the last delimiter and
/// the digest after it; `None` when the line has no delimiter.
pub open spec fn record_of(line: Seq<char>) -> Option<(Seq<char>, Seq<char>)> {
    if exists|i: int| is_last_delim(line, i) {
        let i = choose|i: int| is_last_delim(line, i);
        Some((line.subrange(0, i), line.subrange(i + 2, line.len() as int)))
    } else {
        None
    }
}

/// The ledger line of one entry.
pub open spec fn record_line(path: Seq<char>, digest: Seq<char>) -> Seq<char> {
    path + seq!['|', '|'] + digest
}

/// A path that the ledger can hold: any text without a newline.
pub open spec fn valid_path_key(path: Seq<char>) -> bool {
    has_no_newline(path)
}

/// A digest that the ledger can hold and give back unchanged: no newline, no
/// delimiter, and no `|` at its start that would run into the delimiter.
/// Hex digests are such.
pub open spec fn valid_digest_value(digest: Seq<char>) -> bool {
    &&& has_no_newline(digest)
    &&& forall|i: int| !delim_at(digest, i)
    &&& digest.len() > 0 ==> digest[0] != '|'
}

/// The mapping that a sequence of records gives when inserted in order: a
/// later record for a path replaces an earlier one.
pub open spec fn records_map(rs: Seq<(Seq<char>, Seq<char>)>) -> Map<Seq<char>, Seq<char>>
    decreases rs.len(),
{
    if rs.len() == 0 {
        Map::empty()
    } else {
        records_map(rs.drop_last()).insert(rs.last().0, rs.last().1)
    }
}

/// The ledger text of a sequence of entries: one record per line.
pub open spec fn render_ledger(rs: Seq<(Seq<char>, Seq<char>)>) -> Seq<char> {
    join_lines(rs.map_values(|r: (Seq<char>, Seq<char>)| record_line(r.0, r.1)))
}

/// What a ledger text means: the empty text is the empty mapping; otherwise
/// every line must be a record, and the records are inserted in order.
pub open spec fn parse_ledger(s: Seq<char>) -> Option<Map<Seq<char>, Seq<char>>> {
    if s.len() == 0 {
        Some(Map::empty())
    } else {
        let ls = split_lines(s);
        if forall|i: int| 0 <= i < ls.len() ==> (#[trigger] record_of(ls[i])) is Some {
            Some(records_map(ls.map_values(|l: Seq<char>| record_of(l)->Some_0)))
        } else {
            None
        }
    }
}

pub open spec fn unique_keys(rs: Seq<(Seq<char>, Seq<char>)>) -> bool {
    forall|i: int, j: int| 0 <= i < rs.len() && 0 <= j < rs.len() && i != j ==> rs[i].0 != rs[j].0
}

pub open spec fn valid_records(rs: Seq<(Seq<char>, Seq<char>)>) -> bool {
    forall|i: int|
        0 <= i < rs.len() ==> valid_path_key((#[trigger] rs[i]).0) && valid_digest_value(rs[i].1)
}

proof fn lemma_record_of_line(path: Seq<char>, digest: Seq<char>)
    requires
        valid_digest_value(digest),
    ensures
        record_of(record_line(path, digest)) == Some((path, digest)),
{
    let line = record_line(path, digest);
    let n = path.len() as int;
    assert(line[n] == '|' && line[n + 1] == '|');
    assert forall|j: int| n < j implies !delim_at(line, j) by {
        if delim_at(line, j) {
            if j == n + 1 {
                assert(line[n + 2] == digest[0]);
            } else {
                assert(line[j] == digest[j - n - 2] && line[j + 1] == digest[j - n - 1]);
                assert(delim_at(digest, j - n - 2));
            }
        }
    }
    assert(is_last_delim(line, n));
    let i = choose|i: int| is_last_delim(line, i);
    if i < n {
        assert(!delim_at(line, n));
    }
    if i > n {
        assert(!delim_at(line, i));
    }
    assert(i == n);
    assert(line.subrange(0, n) =~= path);
    assert(line.subrange(n + 2, line.len() as int) =~= digest);
}

/// A line read as a record holds no delimiter in its digest, so the record
/// can be written back unchanged.
proof fn lemma_record_of_valid(line: Seq<char>)
    requires
        has_no_newline(line),
        record_of(line) is Some,
    ensures
        valid_path_key(record_of(line)->Some_0.0),
        valid_digest_value(record_of(line)->Some_0.1),
        record_line(record_of(line)->Some_0.0, record_of(line)->Some_0.1) == line,
{
    let i = choose|i: int| is_last_delim(line, i);
    let k = line.subrange(0, i);
    let v = line.subrange(i + 2, line.len() as int);
    assert forall|j: int| !delim_at(v, j) by {
        if delim_at(v, j) {
            assert(delim_at(line, i + 2 + j));
        }
    }
    if v.len() > 0 {
        assert(v[0] == line[i + 2]);
        assert(!delim_at(line, i + 1));
    }
    assert(record_line(k, v) =~= line);
}

proof fn lemma_records_map_contains(rs: Seq<(Seq<char>, Seq<char>)>, k: Seq<char>)
    ensures
        records_map(rs).contains_key(k) <==> exists|i: int| 0 <= i < rs.len() && rs[i].0 == k,
    decreases rs.len(),
{
    if rs.len() > 0 {
        let init = rs.drop_last();
        lemma_records_map_contains(init, k);
        if records_map(init).contains_key(k) {
            let i = choose|i: int| 0 <= i < init.len() && init[i].0 == k;
            assert(rs[i].0 == k);
        }
        if exists|i: int| 0 <= i < rs.len() && rs[i].0 == k {
            let i = choose|i: int| 0 <= i < rs.len() && rs[i].0 == k;
            if i < rs.len() - 1 {
                assert(init[i].0 == k);
            }
        }
    }
}

proof fn lemma_records_map_value(rs: Seq<(Seq<char>, Seq<char>)>, i: int)
    requires
        unique_keys(rs),
        0 <= i < rs.len(),
    ensures
        records_map(rs).contains_key(rs[i].0),
        records_map(rs)[rs[i].0] == rs[i].1,
    decreases rs.len(),
{
    let init = rs.drop_last();
    if i < rs.len() - 1 {
        assert(init[i] == rs[i]);
        lemma_records_map_value(init, i);
    }
}

proof fn lemma_records_map_update(rs: Seq<(Seq<char>, Seq<char>)>, i: int, v: Seq<char>)
    requires
        unique_keys(rs),
        0 <= i < rs.len(),
    ensures
        records_map(rs.update(i, (rs[i].0, v))) == records_map(rs).insert(rs[i].0, v),
    decreases rs.len(),
{
    let k = rs[i].0;
    let rs2 = rs.update(i, (k, v));
    let init = rs.drop_last();
    if i == rs.len() - 1 {
        assert(rs2.drop_last() =~= init);
        assert(records_map(rs2) =~= records_map(rs).insert(k, v));
    } else {
        assert(rs2.drop_last() =~= init.update(i, (k, v)));
        assert(init[i] == rs[i]);
        lemma_records_map_update(init, i, v);
        assert(rs.last().0 != k);
        assert(records_map(rs2) =~= records_map(rs).insert(k, v));
    }
}

proof fn lemma_records_map_remove(rs: Seq<(Seq<char>, Seq<char>)>, i: int)
    requires
        unique_keys(rs),
        0 <= i < rs.len(),
    ensures
        records_map(rs.remove(i)) == records_map(rs).remove(rs[i].0),
    decreases rs.len(),
{
    let k = rs[i].0;
    let init = rs.drop_last();
    if i == rs.len() - 1 {
        assert(rs.remove(i) =~= init);
        lemma_records_map_contains(init, k);
        assert(!records_map(init).contains_key(k));
        assert(records_map(rs.remove(i)) =~= records_map(rs).remove(k));
    } else {
        assert(rs.remove(i).drop_last() =~= init.remove(i));
        assert(rs.remove(i).last() == rs.last());
        assert(init[i] == rs[i]);
        lemma_records_map_remove(init, i);
        assert(rs.last().0 != k);
        assert(records_map(rs.remove(i)) =~= records_map(rs).remove(k));
    }
}

/// The staging index: each staged path with the digest of the content that
/// the next snapshot would record for it.
pub struct StagingArea {
    values: Vec<(String, String)>,
    root_path: String,
}

impl View for StagingArea {
    type V = Map<Seq<char>, Seq<char>>;

    open spec fn view(&self) -> Map<Seq<char>, Seq<char>> {
        records_map(self.entries())
    }
}

impl StagingArea {
    /// The entries in ledger order.
    pub closed spec fn entries(&self) -> Seq<(Seq<char>, Seq<char>)> {
        self.values@.map_values(|e: (String, String)| (e.0@, e.1@))
    }

    /// The repository root that the index belongs to.
    pub closed spec fn root(&self) -> Seq<char> {
        self.root_path@
    }

    /// Each path appears once, and every entry can be written to the ledger
    /// and read back.
    pub open spec fn wf(&self) -> bool {
        unique_keys(self.entries()) && valid_records(self.entries())
    }

    /// The ledger text that persists this index.
    pub open spec fn ledger(&self) -> Seq<char> {
        render_ledger(self.entries())
    }

    /// An empty index for the repository at `root_path`.
    pub fn new(root_path: String) -> (r: StagingArea)
        ensures
            r.wf(),
            r@ == Map::<Seq<char>, Seq<char>>::empty(),
            r.root() == root_path@,
    {
        let r = StagingArea { values: Vec::new(), root_path };
        assert(r.entries() =~= seq![]);
        r
    }

    /// The repository root that the index belongs to.
    pub fn root_path(&self) -> (r: &String)
        ensures
            r@ == self.root(),
    {
        &self.root_path
    }

    fn find(&self, key: &String) -> (r: Option<usize>)
        ensures
            match r {
                Some(i) => i < self.entries().len() && self.entries()[i as int].0 == key@,
                None => forall|i: int| 0 <= i < self.entries().len() ==> self.entries()[i].0 != key@,
            },
    {
        let mut i: usize = 0;
        while i < self.values.len()
            invariant
                i <= self.values@.len(),
                forall|j: int| 0 <= j < i ==> self.entries()[j].0 != key@,
            decreases self.values@.len() - i,
        {
            if self.values[i].0 == *key {
                return Some(i);
            }
            i = i + 1;
        }
        None
    }

    fn insert_entry(&mut self, key: String, value: String)
        requires
            old(self).wf(),
            valid_path_key(key@),
            valid_digest_value(value@),
        ensures
            final(self).wf(),
            final(self)@ == old(self)@.insert(key@, value@),
            final(self).root() == old(self).root(),
            old(self)@.get(key@) == Some(value@) ==> final(self).entries() == old(self).entries(),
    {
        let ghost es = self.entries();
        match self.find(&key) {
            Some(i) => {
                let ghost k = key@;
                let ghost v = value@;
                self.values[i] = (key, value);
                proof {
                    assert(self.entries() =~= es.update(i as int, (k, v)));
                    lemma_records_map_update(es, i as int, v);
                    lemma_records_map_value(es, i as int);
                    if old(self)@.get(k) == Some(v) {
                        assert(es.update(i as int, (k, v)) =~= es);
                    }
                }
            },
            None => {
                let ghost k = key@;
                let ghost v = value@;
                self.values.push((key, value));
                proof {
                    assert(self.entries() =~= es.push((k, v)));
                    assert(self.entries().drop_last() =~= es);
                    lemma_records_map_contains(es, k);
                }
            },
        }
    }

    /// Reads the records of a ledger text into the index; a record for a
    /// path that is already there replaces it. Fails with `CorruptIndex`,
    /// changing nothing, when a line has no delimiter.
    pub fn read(&mut self, ledger: &str) -> (r: Result<(), KvcError>)
        requires
            old(self).wf(),
        ensures
            final(self).wf(),
            final(self).root() == old(self).root(),
            match parse_ledger(ledger@) {
                Some(m) => r is Ok && final(self)@ == old(self)@.union_prefer_right(m),
                None => r == Err::<(), KvcError>(KvcError::CorruptIndex) && final(self)@ == old(self)@,
            },
    {
        if ledger.unicode_len() == 0 {
            assert(old(self)@.union_prefer_right(Map::empty()) =~= old(self)@);
            return Ok(());
        }
        let lines = lines_of(ledger);
        let ghost ls = split_lines(ledger@);
        let mut records: Vec<(String, String)> = Vec::new();
        let mut i: usize = 0;
        while i < lines.len()
            invariant
                lines@.map_values(|l: String| l@) == ls,
                ls == split_lines(ledger@),
                ledger@.len() > 0,
                self.wf(),
                self@ == old(self)@,
                self.root() == old(self).root(),
                i <= ls.len(),
                records@.len() == i,
                forall|j: int|
                    0 <= j < i ==> (#[trigger] record_of(ls[j])) is Some && (records@[j].0@,
                    records@[j].1@) == record_of(ls[j])->Some_0,
            decreases ls.len() - i,
        {
            assert(lines@[i as int]@ == ls[i as int]);
            match Self::get_key_value(lines[i].as_str()) {
                Some(kv) => {
                    records.push(kv);
                },
                None => {
                    assert(!(record_of(ls[i as int]) is Some));
                    return Err(KvcError::CorruptIndex);
                },
            }
            i = i + 1;
        }
        let ghost rs = ls.map_values(|l: Seq<char>| record_of(l)->Some_0);
        let ghost start = self@;
        proof {
            crate::text::lemma_split_lines_no_newline(ledger@);
        }
        let mut j: usize = 0;
        while j < records.len()
            invariant
                self.wf(),
                self.root() == old(self).root(),
                start == old(self)@,
                rs == ls.map_values(|l: Seq<char>| record_of(l)->Some_0),
                records@.len() == ls.len(),
                forall|k: int|
                    0 <= k < ls.len() ==> (#[trigger] record_of(ls[k])) is Some && (records@[k].0@,
                    records@[k].1@) == record_of(ls[k])->Some_0,
                forall|k: int| 0 <= k < ls.len() ==> has_no_newline(#[trigger] ls[k]),
                j <= records@.len(),
                self@ == start.union_prefer_right(records_map(rs.subrange(0, j as int))),
            decreases records@.len() - j,
        {
            let k = records[j].0.clone();
            let v = records[j].1.clone();
            proof {
                lemma_record_of_valid(ls[j as int]);
                assert(rs.subrange(0, j + 1).drop_last() =~= rs.subrange(0, j as int));
            }
            self.insert_entry(k, v);
            assert(self@ =~= start.union_prefer_right(records_map(rs.subrange(0, j + 1))));
            j = j + 1;
        }
        assert(rs.subrange(0, ls.len() as int) =~= rs);
        Ok(())
    }

    /// Opens the index of the repository at `root_path` from its ledger
    /// text. Fails with `CorruptIndex` when a line has no delimiter.
    pub fn open(root_path: String, ledger: &str) -> (r: Result<StagingArea, KvcError>)
        ensures
            match parse_ledger(ledger@) {
                Some(m) => r matches Ok(area) && area.wf() && area@ == m && area.root() == root_path@,
                None => r == Err::<StagingArea, KvcError>(KvcError::CorruptIndex),
            },
    {
        let mut area = StagingArea::new(root_path);
        match area.read(ledger) {
            Ok(()) => {
                proof {
                    if let Some(m) = parse_ledger(ledger@) {
                        assert(Map::<Seq<char>, Seq<char>>::empty().union_prefer_right(m) =~= m);
                    }
                }
                Ok(area)
            },
            Err(e) => Err(e),
        }
    }

    /// Splits a ledger line at its last delimiter into path and digest.
    fn get_key_value(line: &str) -> (r: Option<(String, String)>)
        ensures
            match record_of(line@) {
                Some(kv) => r matches Some(p) && p.0@ == kv.0 && p.1@ == kv.1,
                None => r is None,
            },
    {
        let cs = chars_of(line);
        let n = cs.len();
        let mut i: usize = n;
        while i > 0
            invariant
                cs@ == line@,
                n == cs@.len(),
                i <= n,
                forall|j: int| i <= j ==> !delim_at(line@, j),
            decreases i,
        {
            let k = i - 1;
            if k + 1 < n && cs[k] == '|' && cs[k + 1] == '|' {
                proof {
                    assert(is_last_delim(line@, k as int));
                    let c = choose|c: int| is_last_delim(line@, c);
                    if c < k {
                        assert(!delim_at(line@, k as int));
                    }
                    if c > k {
                        assert(!delim_at(line@, c));
                    }
                }
                let key = line.substring_char(0, k).to_owned();
                let value = line.substring_char(k + 2, n).to_owned();
                return Some((key, value));
            }
            i = k;
        }
        proof {
            if exists|c: int| is_last_delim(line@, c) {
                let c = choose|c: int| is_last_delim(line@, c);
                assert(delim_at(line@, c));
            }
        }
        None
    }

    /// The ledger text that persists the index: one `path||digest` line
    /// per entry, in entry order, with no newline after the last.
    pub fn save(&self) -> (r: String)
        ensures
            r@ == self.ledger(),
    {
        let mut out = String::new();
        let ghost lines = self.entries().map_values(
            |e: (Seq<char>, Seq<char>)| record_line(e.0, e.1),
        );
        let mut i: usize = 0;
        while i < self.values.len()
            invariant
                i <= self.values@.len(),
                lines == self.entries().map_values(
                    |e: (Seq<char>, Seq<char>)| record_line(e.0, e.1),
                ),
                out@ == join_lines(lines.subrange(0, i as int)),
            decreases self.values@.len() - i,
        {
            proof {
                reveal_strlit("\n");
                reveal_strlit("||");
            }
            let ghost before = out@;
            if i > 0 {
                out.append("\n");
            }
            out.append(self.values[i].0.as_str());
            out.append("||");
            out.append(self.values[i].1.as_str());
            proof {
                let sub = lines.subrange(0, i + 1);
                assert(sub.drop_last() =~= lines.subrange(0, i as int));
                assert(sub.last() == record_line(self.entries()[i as int].0, self.entries()[i as int].1));
                if i == 0 {
                    assert(out@ =~= sub[0]);
                } else {
                    assert(out@ =~= before + seq!['\n'] + sub.last());
                }
            }
            i = i + 1;
        }
        assert(lines.subrange(0, self.values@.len() as int) =~= lines);
        out
    }

    /// Stages `path` at `hash`, replacing any digest it had, and returns the
    /// ledger text to persist. Fails with `InvalidPath`, changing nothing,
    /// when the pair cannot be written to the ledger and read back.
    pub fn add(&mut self, path: String, hash: String) -> (r: Result<String, KvcError>)
        requires
            old(self).wf(),
        ensures
            final(self).wf(),
            final(self).root() == old(self).root(),
            if valid_path_key(path@) && valid_digest_value(hash@) {
                r matches Ok(text) && final(self)@ == old(self)@.insert(path@, hash@)
                    && text@ == final(self).ledger() && (old(self)@.get(path@) == Some(hash@)
                    ==> final(self).entries() == old(self).entries())
            } else {
                r == Err::<String, KvcError>(KvcError::InvalidPath) && final(self)@ == old(self)@
            },
    {
        if !Self::is_storable(path.as_str(), hash.as_str()) {
            return Err(KvcError::InvalidPath);
        }
        self.insert_entry(path, hash);
        Ok(self.save())
    }

    /// Unstages `path` if it is staged; no error when it is not. Returns the
    /// ledger text to persist.
    pub fn remove(&mut self, path: &str) -> (r: String)
        requires
            old(self).wf(),
        ensures
            final(self).wf(),
            final(self).root() == old(self).root(),
            final(self)@ == old(self)@.remove(path@),
            r@ == final(self).ledger(),
    {
        let key = path.to_owned();
        let ghost es = self.entries();
        match self.find(&key) {
            Some(i) => {
                self.values.remove(i);
                proof {
                    assert(self.entries() =~= es.remove(i as int));
                    lemma_records_map_remove(es, i as int);
                }
            },
            None => {
                proof {
                    lemma_records_map_contains(es, path@);
                    assert(old(self)@.remove(path@) =~= old(self)@);
                }
            },
        }
        self.save()
    }

    /// The digest staged for `path`, if any.
    pub fn get(&self, path: &str) -> (r: Option<String>)
        requires
            self.wf(),
        ensures
            match r {
                Some(h) => self@.contains_key(path@) && self@[path@] == h@,
                None => !self@.contains_key(path@),
            },
    {
        let key = path.to_owned();
        match self.find(&key) {
            Some(i) => {
                proof {
                    lemma_records_map_value(self.entries(), i as int);
                }
                Some(self.values[i].1.clone())
            },
            None => {
                proof {
                    lemma_records_map_contains(self.entries(), path@);
                }
                None
            },
        }
    }

    /// Whether `path` with `hash` can be written to the ledger and read back
    /// unchanged.
    pub fn is_storable(path: &str, hash: &str) -> (r: bool)
        ensures
            r == (valid_path_key(path@) && valid_digest_value(hash@)),
    {
        let p = chars_of(path);
        let n = p.len();
        let mut i: usize = 0;
        while i < n
            invariant
                p@ == path@,
                n == p@.len(),
                i <= n,
                forall|j: int| 0 <= j < i ==> p@[j] != '\n',
            decreases n - i,
        {
            if p[i] == '\n' {
                return false;
            }
            i = i + 1;
        }
        let h = chars_of(hash);
        let m = h.len();
        if m > 0 && h[0] == '|' {
            return false;
        }
        let mut k: usize = 0;
        while k < m
            invariant
                h@ == hash@,
                m == h@.len(),
                k <= m,
                forall|j: int| 0 <= j < k ==> h@[j] != '\n',
                forall|j: int| 0 <= j < k && j + 1 < m ==> !delim_at(hash@, j),
            decreases m - k,
        {
            if h[k] == '\n' {
                return false;
            }
            if k + 1 < m && h[k] == '|' && h[k + 1] == '|' {
                assert(delim_at(hash@, k as int));
                return false;
            }
            k = k + 1;
        }
        assert forall|j: int| !delim_at(hash@, j) by {
            if 0 <= j && j + 1 < m {
                assert(j < k);
            }
        }
        true
    }
}

/// Writing an index to its ledger and reading the ledger back gives the same
/// mapping.
pub proof fn lemma_ledger_round_trip(area: StagingArea)
    requires
        area.wf(),
    ensures
        parse_ledger(area.ledger()) == Some(area@),
{
    let es = area.entries();
    let ls = es.map_values(|e: (Seq<char>, Seq<char>)| record_line(e.0, e.1));
    if es.len() == 0 {
        assert(ls =~= seq![]);
        assert(area.ledger() =~= seq![]);
    } else {
        assert forall|i: int| 0 <= i < ls.len() implies has_no_newline(#[trigger] ls[i]) by {
            assert(valid_path_key(es[i].0) && valid_digest_value(es[i].1));
            let l = ls[i];
            assert forall|j: int| 0 <= j < l.len() implies l[j] != '\n' by {
                if j < es[i].0.len() {
                    assert(l[j] == es[i].0[j]);
                } else if j >= es[i].0.len() + 2 {
                    assert(l[j] == es[i].1[j - es[i].0.len() - 2]);
                }
            }
        }
        lemma_split_join(ls);
        if ls.len() == 1 {
            assert(join_lines(ls) == ls[0]);
        }
        assert(join_lines(ls).len() >= ls.last().len());
        assert(ls.last().len() >= 2);
        let split = split_lines(area.ledger());
        assert(split == ls);
        assert forall|i: int| 0 <= i < split.len() implies (#[trigger] record_of(split[i])) is Some
            && record_of(split[i])->Some_0 == es[i] by {
            lemma_record_of_line(es[i].0, es[i].1);
        }
        assert(split.map_values(|l: Seq<char>| record_of(l)->Some_0) =~= es);
    }
}

/// A path staged by `add` is found with its digest by `get` once the ledger
/// text that `add` returned is opened again.
pub proof fn lemma_add_then_open(after: StagingArea, before: Map<Seq<char>, Seq<char>>, path: Seq<char>, digest: Seq<char>)
    requires
        after.wf(),
        after@ == before.insert(path, digest),
    ensures
        parse_ledger(after.ledger()) matches Some(m) && m.contains_key(path) && m[path] == digest,
{
    lemma_ledger_round_trip(after);
}

/// A path dropped by `remove` is absent once the ledger text that `remove`
/// returned is opened again.
pub proof fn lemma_remove_then_open(after: StagingArea, before: Map<Seq<char>, Seq<char>>, path: Seq<char>)
    requires
        after.wf(),
        after@ == before.remove(path),
    ensures
        parse_ledger(after.ledger()) matches Some(m) && !m.contains_key(path),
{
    lemma_ledger_round_trip(after);
}

} // verus!
