use vstd::prelude::*;
use crate::aircraft::{apply_modifiers, apply_spec, eq_rec, wf_aircraft, Aircraft};
use crate::modifier::ModifierClause;
use crate::query::{parse_query, spec_parse, QueryKind, SearchError};
use crate::text::{all_digits, lower_seq, parse_u16, parse_u16_spec, similarity};

verus! {

/// Every row the catalog's data source hands over is well formed.
pub open spec fn catalog_wf(c: Seq<Aircraft>) -> bool {
    forall|i: int| 0 <= i < c.len() ==> wf_aircraft(#[trigger] c[i])
}

/// Which record field an index key names.
#[derive(Debug, Clone, Copy, PartialEq, Eq, Structural)]
pub enum KeyField {
    /// Canonical short code.
    Short,
    /// Normalized display name.
    Name,
}

/// Look a normalized key up in the index: the position the first
/// matching entry of the requested field maps to.
pub open spec fn index_find(
    ix: Seq<(Seq<char>, KeyField, int)>,
    f: KeyField,
    key: Seq<char>,
) -> Option<int>
    decreases ix.len(),
{
    if ix.len() == 0 {
        None
    } else if ix[0].1 == f && ix[0].0 == key {
        Some(ix[0].2)
    } else {
        index_find(ix.drop_first(), f, key)
    }
}

/// Position of the record holding engine variant `n` of airframe `id`:
/// the (n+1)-th record, in catalog order, with that airframe identifier.
pub open spec fn variant_index(c: Seq<Aircraft>, id: u16, n: nat) -> Option<int>
    decreases c.len(),
{
    if c.len() == 0 {
        None
    } else if c[0].id == id {
        if n == 0 {
            Some(0)
        } else {
            match variant_index(c.drop_first(), id, (n - 1) as nat) {
                Some(j) => Some(j + 1),
                None => None,
            }
        }
    } else {
        match variant_index(c.drop_first(), id, n) {
            Some(j) => Some(j + 1),
            None => None,
        }
    }
}

/// Select engine variant `n` of airframe `id`: `NotFound` when the
/// airframe has no record at all, `InvalidEngineVariant` when it
/// exists but has no record for that variant.
pub open spec fn spec_resolve_id(c: Seq<Aircraft>, id: u16, n: u8) -> Result<int, SearchError> {
    match variant_index(c, id, n as nat) {
        Some(j) => Ok(j),
        None => if variant_index(c, id, 0) is None {
            Err(SearchError::NotFound)
        } else {
            Err(SearchError::InvalidEngineVariant)
        },
    }
}

/// Dispatch a selector to its lookup mode. An all-digit unprefixed
/// token takes the identifier path, including its failure modes, and
/// never falls back to text matching.
pub open spec fn spec_resolve(
    c: Seq<Aircraft>,
    kind: QueryKind,
    token: Seq<char>,
    mc: ModifierClause,
) -> Result<int, SearchError> {
    let key = lower_seq(token);
    match kind {
        QueryKind::Id => match parse_u16_spec(token) {
            Some(v) => spec_resolve_id(c, v, mc.engine),
            None => Err(SearchError::InvalidId),
        },
        QueryKind::ShortName => match index_find(spec_index(c), KeyField::Short, key) {
            Some(i) => spec_resolve_id(c, c[i].id, mc.engine),
            None => Err(SearchError::NotFound),
        },
        QueryKind::Name => match index_find(spec_index(c), KeyField::Name, key) {
            Some(i) => spec_resolve_id(c, c[i].id, mc.engine),
            None => Err(SearchError::NotFound),
        },
        QueryKind::Any => if token.len() > 0 && all_digits(token) {
            match parse_u16_spec(token) {
                Some(v) => spec_resolve_id(c, v, mc.engine),
                None => Err(SearchError::InvalidId),
            }
        } else {
            match index_find(spec_index(c), KeyField::Short, key) {
                Some(i) => spec_resolve_id(c, c[i].id, mc.engine),
                None => match index_find(spec_index(c), KeyField::Name, key) {
                    Some(i) => spec_resolve_id(c, c[i].id, mc.engine),
                    None => Err(SearchError::NotFound),
                },
            }
        },
    }
}

/// The whole resolution pipeline: parse, look up, pick the variant.
/// `Ok` carries the position of the chosen record and the clause to
/// apply to it.
pub open spec fn spec_search(c: Seq<Aircraft>, q: Seq<char>) -> Result<
    (int, ModifierClause),
    SearchError,
> {
    match spec_parse(q) {
        Ok(t) => match spec_resolve(c, t.0, t.1, t.2) {
            Ok(i) => Ok((i, t.2)),
            Err(e) => Err(e),
        },
        Err(e) => Err(e),
    }
}

/// A resolution success is always a position inside the catalog.
pub proof fn lemma_variant_index_in_range(c: Seq<Aircraft>, id: u16, n: nat)
    ensures
        variant_index(c, id, n) matches Some(j) ==> 0 <= j < c.len() && c[j].id == id,
    decreases c.len(),
{
    if c.len() > 0 {
        if c[0].id == id && n > 0 {
            lemma_variant_index_in_range(c.drop_first(), id, (n - 1) as nat);
        } else if c[0].id != id {
            lemma_variant_index_in_range(c.drop_first(), id, n);
        }
    }
}

/// One lookup key of the combined index.
#[derive(Debug, Clone)]
pub struct IndexEntry {
    /// Normalized (lowercase) key text.
    pub key: Vec<char>,
    /// Which record field the key names.
    pub field: KeyField,
    /// Position of the default-variant record it names.
    pub pos: usize,
}

/// `i` holds the default (first) record of its airframe identifier.
pub open spec fn default_pos(c: Seq<Aircraft>, i: int) -> bool {
    forall|j: int| 0 <= j < i ==> (#[trigger] c[j]).id != c[i].id
}

/// The index keys contributed by position `i`: the short code and the
/// normalized display name, for default-variant records only.
pub open spec fn index_entries(c: Seq<Aircraft>, i: int) -> Seq<(Seq<char>, KeyField, int)> {
    if default_pos(c, i) {
        seq![(c[i].shortname@, KeyField::Short, i), (lower_seq(c[i].name@), KeyField::Name, i)]
    } else {
        Seq::empty()
    }
}

/// The combined lookup index the constructor owes: two keys for every
/// default-variant record, in catalog order.
pub open spec fn spec_index(c: Seq<Aircraft>) -> Seq<(Seq<char>, KeyField, int)>
    decreases c.len(),
{
    if c.len() == 0 {
        Seq::empty()
    } else {
        spec_index(c.drop_last()) + index_entries(c, c.len() - 1)
    }
}

/// The chosen record after engine-variant substitution, together with
/// the clause that was applied to its stats.
#[derive(Debug, Clone)]
pub struct ResolvedAircraft {
    /// The selected record, stats already adjusted.
    pub aircraft: Aircraft,
    /// The clause that selected the variant and scaled the stats.
    pub modifiers: ModifierClause,
}

/// Immutable store of aircraft records plus the combined lookup index.
pub struct Catalog {
    data: Vec<Aircraft>,
    index: Vec<IndexEntry>,
}

impl View for Catalog {
    type V = Seq<Aircraft>;

    closed spec fn view(&self) -> Seq<Aircraft> {
        self.data@
    }
}

/// Turn the characters of a token into a vector, ASCII-lowercased.
fn chars_lower(s: &str) -> (r: Vec<char>)
    ensures
        r@ == lower_seq(s@),
{
    let n = s.unicode_len();
    let mut out: Vec<char> = Vec::new();
    let mut i: usize = 0;
    while i < n
        invariant
            0 <= i <= n,
            n == s@.len(),
            out@ =~= lower_seq(s@).take(i as int),
        decreases n - i,
    {
        let c = crate::text::lower_char_ex(s.get_char(i));
        out.push(c);
        assert(out@ =~= lower_seq(s@).take(i + 1));
        i += 1;
    }
    assert(lower_seq(s@).take(n as int) =~= lower_seq(s@));
    out
}

/// Case-insensitive comparison of a raw token with a normalized
/// (already lowercase) index key.
fn lower_eq_chars(tok: &str, key: &Vec<char>) -> (r: bool)
    ensures
        r == (lower_seq(tok@) == key@),
{
    let n = tok.unicode_len();
    if n != key.len() {
        assert(lower_seq(tok@).len() != key@.len());
        return false;
    }
    let mut i: usize = 0;
    while i < n
        invariant
            0 <= i <= n,
            n == tok@.len(),
            n == key@.len(),
            forall|k: int| 0 <= k < i ==> crate::text::lower_char(#[trigger] tok@[k]) == key@[k],
        decreases n - i,
    {
        let c = crate::text::lower_char_ex(tok.get_char(i));
        if c != key[i] {
            assert(lower_seq(tok@)[i as int] != key@[i as int]);
            return false;
        }
        i += 1;
    }
    assert(lower_seq(tok@) =~= key@);
    true
}

/// Every index entry maps to a position inside the catalog.
pub proof fn lemma_spec_index_entries(c: Seq<Aircraft>, k: int)
    requires
        0 <= k < spec_index(c).len(),
    ensures
        0 <= spec_index(c)[k].2 < c.len(),
    decreases c.len(),
{
    if c.len() > 0 {
        let pre = spec_index(c.drop_last());
        if k < pre.len() {
            lemma_spec_index_entries(c.drop_last(), k);
        }
    }
}

/// A successful lookup in an index whose entries stay inside the
/// catalog yields a position inside the catalog.
pub proof fn lemma_index_find_in_range(
    ix: Seq<(Seq<char>, KeyField, int)>,
    f: KeyField,
    key: Seq<char>,
    n: int,
)
    requires
        forall|k: int| 0 <= k < ix.len() ==> 0 <= (#[trigger] ix[k]).2 < n,
    ensures
        index_find(ix, f, key) matches Some(p) ==> 0 <= p < n,
    decreases ix.len(),
{
    if ix.len() > 0 && !(ix[0].1 == f && ix[0].0 == key) {
        assert(forall|k: int|
            0 <= k < ix.drop_first().len() ==> (#[trigger] ix.drop_first()[k]) == ix[k + 1]);
        lemma_index_find_in_range(ix.drop_first(), f, key, n);
    }
}

impl Catalog {
    /// All rows are well formed, as the data source guarantees, and
    /// the index is exactly the one the constructor owes.
    pub closed spec fn wf(&self) -> bool {
        catalog_wf(self.data@) && self.index_abs() == spec_index(self.data@)
    }

    /// The index, abstracted to its keys, fields and positions.
    pub closed spec fn index_abs(&self) -> Seq<(Seq<char>, KeyField, int)> {
        self.index@.map_values(|e: IndexEntry| (e.key@, e.field, e.pos as int))
    }

    /// Build the catalog once from pre-validated rows and construct
    /// its lookup index; everything is read-only afterwards.
    pub fn new(data: Vec<Aircraft>) -> (r: Catalog)
        requires
            catalog_wf(data@),
        ensures
            r@ == data@,
            r.wf(),
            r.index_abs() == spec_index(data@),
    {
        let ghost c = data@;
        let mut index: Vec<IndexEntry> = Vec::new();
        let mut i: usize = 0;
        assert(index@.map_values(|e: IndexEntry| (e.key@, e.field, e.pos as int)) =~= spec_index(
            c.take(0),
        ));
        while i < data.len()
            invariant
                0 <= i <= data@.len(),
                c == data@,
                catalog_wf(data@),
                index@.map_values(|e: IndexEntry| (e.key@, e.field, e.pos as int)) == spec_index(
                    c.take(i as int),
                ),
            decreases data@.len() - i,
        {
            let mut isdef = true;
            let mut j: usize = 0;
            while j < i && isdef
                invariant
                    0 <= j <= i < data@.len(),
                    c == data@,
                    isdef ==> forall|k: int| 0 <= k < j ==> (#[trigger] c[k]).id != c[i as int].id,
                    !isdef ==> exists|k: int| 0 <= k < j && (#[trigger] c[k]).id == c[i as int].id,
                decreases i - j,
            {
                if data[j].id == data[i].id {
                    isdef = false;
                }
                j += 1;
            }
            proof {
                assert(c.take(i + 1).drop_last() =~= c.take(i as int));
                assert(forall|k: int|
                    0 <= k <= i ==> #[trigger] c.take(i + 1)[k] == c[k]);
                if isdef {
                    assert(default_pos(c.take(i + 1), i as int));
                } else {
                    let k = choose|k: int| 0 <= k < j && (#[trigger] c[k]).id == c[i as int].id;
                    assert(c.take(i + 1)[k].id == c.take(i + 1)[i as int].id);
                    assert(!default_pos(c.take(i + 1), i as int));
                }
            }
            if isdef {
                let rec = &data[i];
                let skey = chars_lower(rec.shortname.as_str());
                assert(skey@ == rec.shortname@);
                index.push(IndexEntry { key: skey, field: KeyField::Short, pos: i });
                let nkey = chars_lower(rec.name.as_str());
                index.push(IndexEntry { key: nkey, field: KeyField::Name, pos: i });
                assert(index@.map_values(|e: IndexEntry| (e.key@, e.field, e.pos as int)) =~= spec_index(
                    c.take(i + 1),
                ));
            } else {
                assert(index@.map_values(|e: IndexEntry| (e.key@, e.field, e.pos as int)) =~= spec_index(
                    c.take(i + 1),
                ));
            }
            i += 1;
        }
        assert(c.take(i as int) =~= c);
        Catalog { data, index }
    }

    /// The records, in catalog order.
    pub fn data(&self) -> (r: &Vec<Aircraft>)
        ensures
            r@ == self@,
    {
        &self.data
    }

    /// Number of records.
    pub fn data_len(&self) -> (r: usize)
        ensures
            r == self@.len(),
    {
        self.data.len()
    }

    /// The combined lookup index.
    pub fn index(&self) -> (r: &Vec<IndexEntry>)
        ensures
            r@.map_values(|e: IndexEntry| (e.key@, e.field, e.pos as int)) == self.index_abs(),
    {
        &self.index
    }

    /// Number of keys in the combined lookup index.
    pub fn index_len(&self) -> (r: usize)
        ensures
            r == self.index_abs().len(),
    {
        self.index.len()
    }

    fn index_find_ex(&self, f: KeyField, tok: &str) -> (r: Option<usize>)
        requires
            self.wf(),
        ensures
            (match index_find(spec_index(self@), f, lower_seq(tok@)) {
                Some(p) => r matches Some(u) && u == p && 0 <= p < self@.len(),
                None => r is None,
            }),
    {
        let ghost ix = spec_index(self@);
        let ghost key = lower_seq(tok@);
        let n = self.index.len();
        let mut i: usize = 0;
        assert(ix.skip(0) =~= ix);
        while i < n
            invariant
                0 <= i <= n,
                self.wf(),
                ix == spec_index(self@),
                key == lower_seq(tok@),
                n == ix.len(),
                index_find(ix, f, key) == index_find(ix.skip(i as int), f, key),
            decreases n - i,
        {
            proof {
                assert(ix.skip(i as int)[0] == ix[i as int]);
                assert(ix.skip(i as int).drop_first() =~= ix.skip(i + 1));
                assert(ix[i as int] == (
                    self.index@[i as int].key@,
                    self.index@[i as int].field,
                    self.index@[i as int].pos as int,
                ));
            }
            let e = &self.index[i];
            if e.field == f && lower_eq_chars(tok, &e.key) {
                proof {
                    assert(ix[i as int].1 == f);
                    assert(ix[i as int].0 == key);
                    assert(index_find(ix.skip(i as int), f, key) == Some(ix[i as int].2));
                    assert(index_find(ix, f, key) == Some(e.pos as int));
                    assert forall|k: int| 0 <= k < ix.len() implies 0 <= (#[trigger] ix[k]).2
                        < self@.len() by {
                        lemma_spec_index_entries(self@, k);
                    }
                    lemma_index_find_in_range(ix, f, key, self@.len() as int);
                    assert((e.pos as int) < self@.len());
                }
                return Some(e.pos);
            }
            i += 1;
        }
        assert(ix.skip(n as int) =~= Seq::<(Seq<char>, KeyField, int)>::empty());
        None
    }

    fn nth_variant(&self, id: u16, n: u8) -> (r: Option<usize>)
        ensures
            (match variant_index(self@, id, n as nat) {
                Some(j) => r matches Some(u) && u == j,
                None => r is None,
            }),
    {
        let ghost c = self@;
        let len = self.data.len();
        let mut i: usize = 0;
        let mut rem: u8 = n;
        assert(c.skip(0) =~= c);
        while i < len
            invariant
                0 <= i <= len,
                len == c.len(),
                c == self@,
                (match variant_index(c.skip(i as int), id, rem as nat) {
                    Some(j) => variant_index(c, id, n as nat) == Some(j + i),
                    None => variant_index(c, id, n as nat) is None,
                }),
            decreases len - i,
        {
            proof {
                assert(c.skip(i as int)[0] == c[i as int]);
                assert(c.skip(i as int).drop_first() =~= c.skip(i + 1));
            }
            if self.data[i].id == id {
                if rem == 0 {
                    return Some(i);
                }
                rem = rem - 1;
            }
            i += 1;
        }
        assert(c.skip(len as int) =~= Seq::<Aircraft>::empty());
        None
    }

    fn resolve_variant(&self, id: u16, mc: &ModifierClause) -> (r: Result<usize, SearchError>)
        ensures
            (match spec_resolve_id(self@, id, mc.engine) {
                Ok(j) => r matches Ok(u) && u == j && 0 <= j < self@.len(),
                Err(e) => r == Err::<usize, SearchError>(e),
            }),
    {
        proof {
            lemma_variant_index_in_range(self@, id, mc.engine as nat);
        }
        match self.nth_variant(id, mc.engine) {
            Some(j) => Ok(j),
            None => {
                match self.nth_variant(id, 0) {
                    Some(_) => Err(SearchError::InvalidEngineVariant),
                    None => Err(SearchError::NotFound),
                }
            },
        }
    }

    fn is_all_digits(tok: &str) -> (r: bool)
        ensures
            r == (tok@.len() > 0 && all_digits(tok@)),
    {
        let n = tok.unicode_len();
        if n == 0 {
            return false;
        }
        let mut i: usize = 0;
        while i < n
            invariant
                0 <= i <= n,
                n == tok@.len(),
                forall|k: int| 0 <= k < i ==> crate::text::is_digit(#[trigger] tok@[k]),
            decreases n - i,
        {
            let u = tok.get_char(i) as u32;
            if u < 48 || u > 57 {
                assert(!crate::text::is_digit(tok@[i as int]));
                return false;
            }
            assert(crate::text::is_digit(tok@[i as int]));
            i += 1;
        }
        true
    }

    fn resolve(&self, kind: QueryKind, tok: &str, mc: &ModifierClause) -> (r: Result<
        usize,
        SearchError,
    >)
        requires
            self.wf(),
        ensures
            (match spec_resolve(self@, kind, tok@, *mc) {
                Ok(j) => r matches Ok(u) && u == j && 0 <= j < self@.len(),
                Err(e) => r == Err::<usize, SearchError>(e),
            }),
    {
        match kind {
            QueryKind::Id => match parse_u16(tok) {
                Some(v) => self.resolve_variant(v, mc),
                None => Err(SearchError::InvalidId),
            },
            QueryKind::ShortName => match self.index_find_ex(KeyField::Short, tok) {
                Some(i) => self.resolve_variant(self.data[i].id, mc),
                None => Err(SearchError::NotFound),
            },
            QueryKind::Name => match self.index_find_ex(KeyField::Name, tok) {
                Some(i) => self.resolve_variant(self.data[i].id, mc),
                None => Err(SearchError::NotFound),
            },
            QueryKind::Any => {
                if Self::is_all_digits(tok) {
                    match parse_u16(tok) {
                        Some(v) => self.resolve_variant(v, mc),
                        None => Err(SearchError::InvalidId),
                    }
                } else {
                    match self.index_find_ex(KeyField::Short, tok) {
                        Some(i) => self.resolve_variant(self.data[i].id, mc),
                        None => match self.index_find_ex(KeyField::Name, tok) {
                            Some(i) => self.resolve_variant(self.data[i].id, mc),
                            None => Err(SearchError::NotFound),
                        },
                    }
                }
            },
        }
    }

    /// Resolve a raw query to one adjusted record, or a typed failure.
    pub fn search(&self, q: &str) -> (r: Result<ResolvedAircraft, SearchError>)
        requires
            self.wf(),
        ensures
            (match r {
                Ok(res) => {
                    &&& spec_search(self@, q@) matches Ok(p)
                    &&& eq_rec(res.aircraft, apply_spec(self@[p.0], p.1))
                    &&& res.modifiers == p.1
                },
                Err(e) => spec_search(self@, q@) == Err::<(int, ModifierClause), SearchError>(e),
            }),
    {
        match parse_query(q) {
            Ok(p) => {
                match self.resolve(p.kind, p.token, &p.mods) {
                    Ok(i) => {
                        assert(wf_aircraft(self@[i as int]));
                        let adjusted = apply_modifiers(&self.data[i], &p.mods);
                        Ok(ResolvedAircraft { aircraft: adjusted, modifiers: p.mods })
                    },
                    Err(e) => Err(e),
                }
            },
            Err(e) => Err(e),
        }
    }
}

/// Minimum similarity (out of 1000) a suggestion candidate must clear.
pub const MIN_SCORE: u32 = 500;

/// The key a suggestion run is scored against: the query's selector
/// token, prefix and clause stripped, lowercased.
pub open spec fn suggest_key(q: Seq<char>) -> Seq<char> {
    lower_seq(crate::query::suggest_token(q))
}

/// Best score a record achieves against the key, over its short code
/// and its normalized display name, whichever field the caller's
/// original prefix named.
pub open spec fn record_score(key: Seq<char>, a: Aircraft) -> int {
    let s1 = similarity(key, lower_seq(a.shortname@));
    let s2 = similarity(key, lower_seq(a.name@));
    if s1 >= s2 {
        s1
    } else {
        s2
    }
}

/// The candidates that clear the threshold, in catalog order, each
/// paired with its score.
pub open spec fn qualifying(c: Seq<Aircraft>, key: Seq<char>) -> Seq<(usize, u32)>
    decreases c.len(),
{
    if c.len() == 0 {
        Seq::empty()
    } else {
        let pre = qualifying(c.drop_last(), key);
        let i = c.len() - 1;
        let sc = record_score(key, c[i]);
        if sc >= MIN_SCORE {
            pre.push((i as usize, sc as u32))
        } else {
            pre
        }
    }
}

/// Every qualifying pair names a catalog position, carries that
/// record's exact score, and clears the threshold.
pub proof fn lemma_qualifying_elems(c: Seq<Aircraft>, key: Seq<char>, k: int)
    requires
        c.len() <= usize::MAX,
        0 <= k < qualifying(c, key).len(),
    ensures
        ({
            let p = qualifying(c, key)[k];
            &&& p.0 < c.len()
            &&& p.1 == record_score(key, c[p.0 as int])
            &&& p.1 >= MIN_SCORE
        }),
    decreases c.len(),
{
    if c.len() > 0 {
        let pre = qualifying(c.drop_last(), key);
        let i = c.len() - 1;
        crate::text::lemma_similarity_bounds(key, lower_seq(c[i].shortname@));
        crate::text::lemma_similarity_bounds(key, lower_seq(c[i].name@));
        if k < pre.len() {
            lemma_qualifying_elems(c.drop_last(), key, k);
            let p = pre[k];
            assert(c.drop_last()[p.0 as int] == c[p.0 as int]);
        }
    }
}

/// Scores never fall along the result: descending, best first.
pub open spec fn sorted_desc(s: Seq<(usize, u32)>) -> bool {
    forall|a: int, b: int| 0 <= a <= b < s.len() ==> s[a].1 >= s[b].1
}

/// Sort score pairs descending by score (insertion sort), keeping
/// exactly the same pairs.
fn sort_desc(v: Vec<(usize, u32)>) -> (r: Vec<(usize, u32)>)
    ensures
        sorted_desc(r@),
        r@.to_multiset() == v@.to_multiset(),
        r@.len() == v@.len(),
{
    let mut out: Vec<(usize, u32)> = Vec::new();
    let mut i: usize = 0;
    proof {
        broadcast use vstd::seq_lib::group_to_multiset_ensures;

        assert(v@.take(0) =~= Seq::<(usize, u32)>::empty());
        assert(out@.to_multiset() =~= v@.take(0).to_multiset());
    }
    while i < v.len()
        invariant
            0 <= i <= v@.len(),
            out@.len() == i,
            sorted_desc(out@),
            out@.to_multiset() == v@.take(i as int).to_multiset(),
        decreases v@.len() - i,
    {
        let p = v[i];
        let mut k: usize = 0;
        while k < out.len() && out[k].1 >= p.1
            invariant
                0 <= k <= out@.len(),
                forall|l: int| 0 <= l < k ==> (#[trigger] out@[l]).1 >= p.1,
            decreases out@.len() - k,
        {
            k += 1;
        }
        let ghost old_out = out@;
        out.insert(k, p);
        proof {
            broadcast use vstd::seq_lib::group_to_multiset_ensures;
            broadcast use vstd::seq_lib::to_multiset_insert;

            assert(v@.take(i + 1).drop_last() =~= v@.take(i as int));
            assert(v@.take(i + 1) =~= v@.take(i as int).push(v@[i as int]));
            assert(out@ == old_out.insert(k as int, p));
            assert forall|a: int, b: int| 0 <= a <= b < out@.len() implies out@[a].1
                >= out@[b].1 by {
                assert(forall|l: int| 0 <= l < k ==> out@[l] == old_out[l]);
                assert(out@[k as int] == p);
                assert(forall|l: int| k < l < out@.len() ==> out@[l] == old_out[l - 1]);
                if k < old_out.len() {
                    assert(old_out[k as int].1 < p.1);
                }
            }
        }
        i += 1;
    }
    assert(v@.take(i as int) =~= v@);
    out
}

/// A candidate record paired with its similarity score.
#[derive(Debug, Clone)]
pub struct SuggestionItem {
    /// Position of the record in the catalog.
    pub pos: usize,
    /// An owned copy of the record.
    pub item: Aircraft,
    /// Its similarity score, 0 to 1000.
    pub score: u32,
}

impl Catalog {
    fn record_score_ex(&self, tok: &str, i: usize) -> (r: u32)
        requires
            self.wf(),
            i < self@.len(),
        ensures
            r == record_score(lower_seq(tok@), self@[i as int]),
            r <= 1000,
    {
        proof {
            crate::text::lemma_similarity_bounds(lower_seq(tok@), lower_seq(self@[i as int].shortname@));
            crate::text::lemma_similarity_bounds(lower_seq(tok@), lower_seq(self@[i as int].name@));
        }
        let s1 = crate::text::similarity_ex(tok, self.data[i].shortname.as_str());
        let s2 = crate::text::similarity_ex(tok, self.data[i].name.as_str());
        if s1 >= s2 {
            s1
        } else {
            s2
        }
    }

    fn collect_qualifying(&self, tok: &str) -> (r: Vec<(usize, u32)>)
        requires
            self.wf(),
        ensures
            r@ == qualifying(self@, lower_seq(tok@)),
    {
        let ghost c = self@;
        let ghost key = lower_seq(tok@);
        let mut out: Vec<(usize, u32)> = Vec::new();
        let mut i: usize = 0;
        assert(out@ =~= qualifying(c.take(0), key));
        while i < self.data.len()
            invariant
                0 <= i <= c.len(),
                c == self@,
                self.wf(),
                key == lower_seq(tok@),
                out@ == qualifying(c.take(i as int), key),
            decreases c.len() - i,
        {
            proof {
                assert(c.take(i + 1).drop_last() =~= c.take(i as int));
                assert(c.take(i + 1)[i as int] == c[i as int]);
            }
            let sc = self.record_score_ex(tok, i);
            if sc >= MIN_SCORE {
                out.push((i, sc));
            }
            assert(out@ =~= qualifying(c.take(i + 1), key));
            i += 1;
        }
        assert(c.take(i as int) =~= c);
        out
    }

    /// Rank the catalog against the query's selector token and return
    /// every record clearing the similarity threshold, best first.
    /// Both the short code and the display name of each record are
    /// scored, whatever field prefix the caller originally used.
    pub fn suggest(&self, q: &str) -> (r: Result<Vec<SuggestionItem>, SearchError>)
        requires
            self.wf(),
        ensures
            (match r {
                Ok(v) => {
                    &&& v@.len() > 0
                    &&& v@.len() == qualifying(self@, suggest_key(q@)).len()
                    &&& v@.map_values(|it: SuggestionItem| (it.pos, it.score)).to_multiset()
                        == qualifying(self@, suggest_key(q@)).to_multiset()
                    &&& forall|k: int|
                        0 <= k < v@.len() ==> (#[trigger] v@[k]).pos < self@.len()
                            && v@[k].score == record_score(suggest_key(q@), self@[v@[k].pos as int])
                            && v@[k].score >= MIN_SCORE
                            && eq_rec(v@[k].item, self@[v@[k].pos as int])
                    &&& forall|k1: int, k2: int|
                        0 <= k1 <= k2 < v@.len() ==> (#[trigger] v@[k1]).score
                            >= (#[trigger] v@[k2]).score
                },
                Err(e) => {
                    &&& e == SearchError::NoSuggestion
                    &&& qualifying(self@, suggest_key(q@)).len() == 0
                },
            }),
    {
        let ghost c = self@;
        let ghost key = suggest_key(q@);
        let tok = crate::query::selector_token(q);
        assert(lower_seq(tok@) == key);
        let pairs = self.collect_qualifying(tok);
        if pairs.len() == 0 {
            return Err(SearchError::NoSuggestion);
        }
        let sorted = sort_desc(pairs);
        let ghost sq = sorted@;
        let mut items: Vec<SuggestionItem> = Vec::new();
        let mut k: usize = 0;
        while k < sorted.len()
            invariant
                0 <= k <= sq.len(),
                sq == sorted@,
                c == self@,
                self.wf(),
                sq.to_multiset() == qualifying(c, key).to_multiset(),
                items@.len() == k,
                forall|l: int|
                    0 <= l < k ==> (#[trigger] items@[l]).pos == sq[l].0 && items@[l].score
                        == sq[l].1 && items@[l].pos < c.len() && eq_rec(
                        items@[l].item,
                        c[items@[l].pos as int],
                    ) && items@[l].score == record_score(key, c[items@[l].pos as int])
                        && items@[l].score >= MIN_SCORE,
            decreases sq.len() - k,
        {
            proof {
                broadcast use vstd::seq_lib::group_to_multiset_ensures;

                assert(sq.contains(sq[k as int]));
                assert(sq.to_multiset().count(sq[k as int]) > 0);
                assert(qualifying(c, key).to_multiset().count(sq[k as int]) > 0);
                assert(qualifying(c, key).contains(sq[k as int]));
                assert(self.data.len() <= usize::MAX);
                let j = choose|j: int|
                    0 <= j < qualifying(c, key).len() && qualifying(c, key)[j] == sq[k as int];
                lemma_qualifying_elems(c, key, j);
            }
            let pr = sorted[k];
            let rec = self.data[pr.0].duplicate();
            items.push(SuggestionItem { pos: pr.0, item: rec, score: pr.1 });
            k += 1;
        }
        proof {
            assert(items@.map_values(|it: SuggestionItem| (it.pos, it.score)) =~= sq);
        }
        Ok(items)
    }
}

} // verus!
