//! The vocabulary table: an id-to-subword mapping with a designated blank
//! token, parsed from a whitespace-delimited two-column text table.

use vstd::prelude::*;

use crate::errors::ParseError;
use crate::text::byte_views;
use crate::text::field_split;
use crate::text::parse_i64;
use crate::text::parse_i64_bytes;
use crate::text::replace_marker;
use crate::text::replace_marker_bytes;
use crate::text::split_first_field;
use crate::text::split_lines;
use crate::text::split_lines_bytes;
use crate::text::trim;
use crate::text::trim_bytes;

verus! {

/// One vocabulary row: a token id and the token's text, already
/// space-normalized (the word-boundary marker rewritten to a space).
#[derive(Debug)]
pub struct VocabEntry {
    /// The row's integer id.
    pub id: i64,
    /// The token text, UTF-8 bytes.
    pub text: Vec<u8>,
}

/// The id-to-text mapping an entry sequence spells out; a later row with the
/// same id overwrites an earlier one.
pub open spec fn map_of(entries: Seq<VocabEntry>) -> Map<i64, Seq<u8>>
    decreases entries.len(),
{
    if entries.len() == 0 {
        Map::empty()
    } else {
        map_of(entries.drop_last()).insert(entries.last().id, entries.last().text@)
    }
}

/// No two entries share an id.
pub open spec fn unique_ids(entries: Seq<VocabEntry>) -> bool {
    forall|i: int, j: int|
        0 <= i < j < entries.len() ==> (#[trigger] entries[i].id) != (#[trigger] entries[j].id)
}

/// The immutable vocabulary table: built once at load, then only read.
#[derive(Debug)]
pub struct Vocabulary {
    /// The rows, with pairwise distinct ids.
    pub entries: Vec<VocabEntry>,
    /// The id of the designated blank token, 0 when the table has none.
    pub blank_id: i64,
}

/// The byte spelling of the token that designates blank.
pub open spec fn blank_literal() -> Seq<u8> {
    seq![60u8, 98u8, 108u8, 107u8, 62u8]
}

/// Mathematical image of a vocabulary: the mapping and the blank id.
pub struct VocabView {
    /// Token text by id.
    pub map: Map<i64, Seq<u8>>,
    /// Id of the blank token, 0 when none was seen.
    pub blank: i64,
}

/// One line folded into the table. An all-whitespace line is skipped; a
/// non-empty line must have at least two space-separated columns, a raw
/// token and a decimal id; the raw token spelled `<blk>` designates blank;
/// the stored text is the raw token with the word-boundary marker rewritten
/// to a space.
pub open spec fn row_step(m: VocabView, line: Seq<u8>) -> Result<VocabView, ParseError> {
    let t = trim(line);
    if t.len() == 0 {
        Ok(m)
    } else {
        let fs = field_split(t);
        match fs.1 {
            None => Err(ParseError::MalformedLine),
            Some(rest) => {
                let id_field = field_split(rest).0;
                match parse_i64(id_field) {
                    None => Err(ParseError::InvalidId),
                    Some(id) => Ok(
                        VocabView {
                            map: m.map.insert(id, replace_marker(fs.0)),
                            blank: if fs.0 == blank_literal() {
                                id
                            } else {
                                m.blank
                            },
                        },
                    ),
                }
            },
        }
    }
}

/// The lines folded in order, stopping at the first bad row.
pub open spec fn parse_rows(lines: Seq<Seq<u8>>) -> Result<VocabView, ParseError>
    decreases lines.len(),
{
    if lines.len() == 0 {
        Ok(VocabView { map: Map::empty(), blank: 0 })
    } else {
        match parse_rows(lines.drop_last()) {
            Err(e) => Err(e),
            Ok(m) => row_step(m, lines.last()),
        }
    }
}

/// What a vocabulary table's bytes denote: its lines folded in order.
pub open spec fn parse_vocab(content: Seq<u8>) -> Result<VocabView, ParseError> {
    parse_rows(split_lines(content))
}

/// An error in a prefix of the lines is the error of the whole table.
proof fn lemma_parse_rows_err_prefix(lines: Seq<Seq<u8>>, k: int, e: ParseError)
    requires
        0 <= k <= lines.len(),
        parse_rows(lines.take(k)) == Err::<VocabView, ParseError>(e),
    ensures
        parse_rows(lines) == Err::<VocabView, ParseError>(e),
    decreases lines.len() - k,
{
    if k == lines.len() {
        assert(lines.take(k) =~= lines);
    } else {
        assert(lines.take(k + 1).drop_last() =~= lines.take(k));
        lemma_parse_rows_err_prefix(lines, k + 1, e);
    }
}

/// With pairwise distinct ids, entry `j` is in the mapping with its text.
proof fn lemma_map_of_index(entries: Seq<VocabEntry>, j: int)
    requires
        unique_ids(entries),
        0 <= j < entries.len(),
    ensures
        map_of(entries).dom().contains(entries[j].id),
        map_of(entries)[entries[j].id] == entries[j].text@,
    decreases entries.len(),
{
    if j < entries.len() - 1 {
        assert(unique_ids(entries.drop_last()));
        lemma_map_of_index(entries.drop_last(), j);
        assert(entries.drop_last()[j] == entries[j]);
        assert(entries[j].id != entries.last().id);
    }
}

/// Every id in the mapping belongs to some entry.
proof fn lemma_map_of_dom(entries: Seq<VocabEntry>, id: i64)
    requires
        map_of(entries).dom().contains(id),
    ensures
        exists|j: int| 0 <= j < entries.len() && (#[trigger] entries[j]).id == id,
    decreases entries.len(),
{
    if entries.len() > 0 && entries.last().id != id {
        lemma_map_of_dom(entries.drop_last(), id);
        let j = choose|j: int|
            0 <= j < entries.drop_last().len() && (#[trigger] entries.drop_last()[j]).id == id;
        assert(entries[j].id == id);
    }
}

/// Replacing the entry that holds `e.id` is an insert on the mapping.
proof fn lemma_map_of_update(entries: Seq<VocabEntry>, j: int, e: VocabEntry)
    requires
        unique_ids(entries),
        0 <= j < entries.len(),
        entries[j].id == e.id,
    ensures
        map_of(entries.update(j, e)) =~= map_of(entries).insert(e.id, e.text@),
    decreases entries.len(),
{
    let upd = entries.update(j, e);
    if j == entries.len() - 1 {
        assert(upd.drop_last() =~= entries.drop_last());
        assert(upd.last() == e);
    } else {
        assert(unique_ids(entries.drop_last()));
        assert(upd.drop_last() =~= entries.drop_last().update(j, e));
        assert(entries.drop_last()[j] == entries[j]);
        lemma_map_of_update(entries.drop_last(), j, e);
        assert(upd.last() == entries.last());
        assert(entries.last().id != e.id);
    }
}

/// Whether `v` spells the blank token.
fn is_blank_token(v: &Vec<u8>) -> (r: bool)
    ensures
        r == (v@ == blank_literal()),
{
    if v.len() != 5 {
        return false;
    }
    let r = v[0] == 60 && v[1] == 98 && v[2] == 108 && v[3] == 107 && v[4] == 62;
    proof {
        if r {
            assert(v@ =~= blank_literal());
        }
    }
    r
}

/// Store `text` under `id`, overwriting the entry that already holds `id`
/// if there is one.
fn upsert(entries: &mut Vec<VocabEntry>, id: i64, text: Vec<u8>)
    requires
        unique_ids(old(entries)@),
    ensures
        unique_ids(final(entries)@),
        map_of(final(entries)@) == map_of(old(entries)@).insert(id, text@),
        final(entries)@.len() <= old(entries)@.len() + 1,
{
    let ghost text_view = text@;
    let mut j: usize = 0;
    while j < entries.len()
        invariant
            j <= entries@.len(),
            unique_ids(entries@),
            *entries == *old(entries),
            text@ == text_view,
            forall|x: int| 0 <= x < j ==> (#[trigger] entries@[x]).id != id,
        decreases entries@.len() - j,
    {
        if entries[j].id == id {
            proof {
                lemma_map_of_update(entries@, j as int, VocabEntry { id, text });
            }
            entries.set(j, VocabEntry { id, text });
            proof {
                assert(unique_ids(entries@));
            }
            return;
        }
        j = j + 1;
    }
    proof {
        let pushed = entries@.push(VocabEntry { id, text });
        assert(pushed.drop_last() =~= entries@);
        assert(forall|x: int| 0 <= x < entries@.len() ==> pushed[x] == entries@[x]);
    }
    entries.push(VocabEntry { id, text });
}

impl Vocabulary {
    /// The id-to-text mapping this table holds.
    pub open spec fn map_view(&self) -> Map<i64, Seq<u8>> {
        map_of(self.entries@)
    }

    /// The table is well formed: no id occurs twice.
    pub open spec fn wf(&self) -> bool {
        unique_ids(self.entries@)
    }

    /// The empty table, blank id 0.
    pub fn new() -> (r: Vocabulary)
        ensures
            r.wf(),
            r.map_view() == Map::<i64, Seq<u8>>::empty(),
            r.blank_id == 0,
    {
        Vocabulary { entries: Vec::new(), blank_id: 0 }
    }

    /// How many distinct ids the table holds.
    pub fn vocab_size(&self) -> (r: usize)
        ensures
            r == self.entries@.len(),
    {
        self.entries.len()
    }

    /// Parse a whole table. Every non-empty line must be `token id`; the
    /// word-boundary marker in a token is rewritten to a space; the token
    /// spelled `<blk>` designates blank. Returns the first bad row's error.
    pub fn parse(content: &Vec<u8>) -> (r: Result<Vocabulary, ParseError>)
        ensures
            match r {
                Ok(v) => parse_vocab(content@) matches Ok(m) && v.wf() && v.map_view() == m.map
                    && v.blank_id == m.blank,
                Err(e) => parse_vocab(content@) == Err::<VocabView, ParseError>(e),
            },
    {
        let lines = split_lines_bytes(content);
        let ghost lviews = byte_views(lines@);
        let mut entries: Vec<VocabEntry> = Vec::new();
        let mut blank: i64 = 0;
        let mut k: usize = 0;
        proof {
            assert(lviews.take(0) =~= Seq::<Seq<u8>>::empty());
        }
        while k < lines.len()
            invariant
                k <= lines@.len(),
                lviews == byte_views(lines@),
                lviews == split_lines(content@),
                unique_ids(entries@),
                parse_rows(lviews.take(k as int)) == Ok::<VocabView, ParseError>(
                    VocabView { map: map_of(entries@), blank },
                ),
            decreases lines@.len() - k,
        {
            let ghost pre = VocabView { map: map_of(entries@), blank };
            proof {
                assert(lviews.take(k as int + 1).drop_last() =~= lviews.take(k as int));
                assert(lviews.take(k as int + 1).last() == lines@[k as int]@);
            }
            let t = trim_bytes(&lines[k]);
            if t.len() == 0 {
                k = k + 1;
                continue;
            }
            let (tok_raw, rest_opt) = split_first_field(&t);
            match rest_opt {
                None => {
                    proof {
                        assert(parse_rows(lviews.take(k as int + 1)) == Err::<
                            VocabView,
                            ParseError,
                        >(ParseError::MalformedLine));
                        lemma_parse_rows_err_prefix(lviews, k as int + 1, ParseError::MalformedLine);
                    }
                    return Err(ParseError::MalformedLine);
                },
                Some(rest) => {
                    let (id_field, _tail) = split_first_field(&rest);
                    match parse_i64_bytes(&id_field) {
                        None => {
                            proof {
                                assert(parse_rows(lviews.take(k as int + 1)) == Err::<
                                    VocabView,
                                    ParseError,
                                >(ParseError::InvalidId));
                                lemma_parse_rows_err_prefix(
                                    lviews,
                                    k as int + 1,
                                    ParseError::InvalidId,
                                );
                            }
                            return Err(ParseError::InvalidId);
                        },
                        Some(id) => {
                            let token = replace_marker_bytes(&tok_raw);
                            if is_blank_token(&tok_raw) {
                                blank = id;
                            }
                            upsert(&mut entries, id, token);
                            k = k + 1;
                        },
                    }
                },
            }
        }
        proof {
            assert(lviews.take(lines@.len() as int) =~= lviews);
        }
        Ok(Vocabulary { entries, blank_id: blank })
    }

    /// The text stored under `id`, if any.
    pub fn get_token(&self, id: i64) -> (r: Option<&Vec<u8>>)
        requires
            self.wf(),
        ensures
            match r {
                Some(text) => self.map_view().dom().contains(id) && self.map_view()[id] == text@,
                None => !self.map_view().dom().contains(id),
            },
    {
        let mut j: usize = 0;
        while j < self.entries.len()
            invariant
                j <= self.entries@.len(),
                unique_ids(self.entries@),
                forall|x: int| 0 <= x < j ==> (#[trigger] self.entries@[x]).id != id,
            decreases self.entries@.len() - j,
        {
            if self.entries[j].id == id {
                proof {
                    lemma_map_of_index(self.entries@, j as int);
                }
                return Some(&self.entries[j].text);
            }
            j = j + 1;
        }
        proof {
            if self.map_view().dom().contains(id) {
                lemma_map_of_dom(self.entries@, id);
            }
        }
        None
    }

    /// A fresh copy of the table.
    pub fn snapshot(&self) -> (r: Vocabulary)
        ensures
            r.entries@.len() == self.entries@.len(),
            r.wf() == self.wf(),
            r.map_view() == self.map_view(),
            r.blank_id == self.blank_id,
    {
        let mut entries: Vec<VocabEntry> = Vec::new();
        let mut j: usize = 0;
        while j < self.entries.len()
            invariant
                j <= self.entries@.len(),
                entries@.len() == j,
                forall|x: int| 0 <= x < j ==> (#[trigger] entries@[x]).id == self.entries@[x].id
                    && entries@[x].text@ == self.entries@[x].text@,
            decreases self.entries@.len() - j,
        {
            let e = &self.entries[j];
            let text = crate::text::copy_byte_range(&e.text, 0, e.text.len());
            proof {
                assert(e.text@.subrange(0, e.text@.len() as int) =~= e.text@);
            }
            entries.push(VocabEntry { id: e.id, text });
            j = j + 1;
        }
        proof {
            lemma_map_of_congruent(entries@, self.entries@);
        }
        Vocabulary { entries, blank_id: self.blank_id }
    }
}

/// Entry sequences equal id-by-id and text-by-text spell the same mapping
/// and are unique together.
proof fn lemma_map_of_congruent(a: Seq<VocabEntry>, b: Seq<VocabEntry>)
    requires
        a.len() == b.len(),
        forall|x: int| 0 <= x < a.len() ==> (#[trigger] a[x]).id == b[x].id && a[x].text@
            == b[x].text@,
    ensures
        map_of(a) == map_of(b),
        unique_ids(a) == unique_ids(b),
    decreases a.len(),
{
    if a.len() > 0 {
        assert(forall|x: int|
            0 <= x < a.len() - 1 ==> (#[trigger] a.drop_last()[x]) == a[x] && b.drop_last()[x]
                == b[x]);
        lemma_map_of_congruent(a.drop_last(), b.drop_last());
    }
    if unique_ids(a) {
        assert forall|i: int, j: int|
            0 <= i < j < b.len() implies (#[trigger] b[i].id) != (#[trigger] b[j].id) by {
            assert(a[i].id == b[i].id);
            assert(a[j].id == b[j].id);
        }
    }
    if unique_ids(b) {
        assert forall|i: int, j: int|
            0 <= i < j < a.len() implies (#[trigger] a[i].id) != (#[trigger] a[j].id) by {
            assert(a[i].id == b[i].id);
            assert(a[j].id == b[j].id);
        }
    }
}

} // verus!
