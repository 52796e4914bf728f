//! The in-memory snapshot of retrievable records and how it is loaded.

use vstd::prelude::*;
use vstd::string::*;

verus! {

/// What a stored record holds, as mathematical values.
pub struct EntityView {
    pub id: Seq<char>,
    pub category: Seq<char>,
    pub timestamp: Seq<char>,
    pub vector: Seq<u32>,
    pub content: Seq<char>,
}

/// A stored passage with its embedding. Each component of `vector` is the bit
/// pattern of a single-precision number.
#[derive(Clone, Debug)]
pub struct FormattedVectorEntity {
    pub id: String,
    pub category: String,
    pub timestamp: String,
    pub vector: Vec<u32>,
    pub content: String,
}

impl View for FormattedVectorEntity {
    type V = EntityView;

    open spec fn view(&self) -> EntityView {
        EntityView {
            id: self.id@,
            category: self.category@,
            timestamp: self.timestamp@,
            vector: self.vector@,
            content: self.content@,
        }
    }
}

/// Copies a vector of components.
pub fn copy_components(vector: &Vec<u32>) -> (copy: Vec<u32>)
    ensures
        copy@ == vector@,
{
    let mut copy: Vec<u32> = Vec::new();
    let mut i: usize = 0;
    while i < vector.len()
        invariant
            i <= vector.len(),
            copy@ == vector@.take(i as int),
        decreases vector.len() - i,
    {
        copy.push(vector[i]);
        proof {
            assert(vector@.take(i + 1) =~= vector@.take(i as int).push(vector@[i as int]));
        }
        i += 1;
    }
    proof {
        assert(vector@.take(vector.len() as int) =~= vector@);
    }
    copy
}

impl FormattedVectorEntity {
    /// A copy that holds the same values.
    pub fn duplicate(&self) -> (copy: FormattedVectorEntity)
        ensures
            copy@ == self@,
    {
        FormattedVectorEntity {
            id: self.id.clone(),
            category: self.category.clone(),
            timestamp: self.timestamp.clone(),
            vector: copy_components(&self.vector),
            content: self.content.clone(),
        }
    }
}

/// The timestamp of a record whose source gave none.
pub open spec fn unknown_timestamp() -> Seq<char> {
    "unknown"@
}

/// The content of a record whose source gave none.
pub open spec fn missing_content() -> Seq<char> {
    "N/A"@
}

/// The fields into which commas divide `text`: one more than it has commas,
/// none holding a comma, in their order of appearance.
pub open spec fn split_fields(text: Seq<char>) -> Seq<Seq<char>>
    decreases text.len(),
{
    if text.len() == 0 {
        seq![Seq::<char>::empty()]
    } else {
        let before = split_fields(text.drop_last());
        if text.last() == ',' {
            before.push(Seq::<char>::empty())
        } else {
            before.drop_last().push(before.last().push(text.last()))
        }
    }
}

/// The text that `fields` spell when a comma is put between neighbours.
pub open spec fn joined(fields: Seq<Seq<char>>) -> Seq<char>
    decreases fields.len(),
{
    if fields.len() == 0 {
        Seq::empty()
    } else if fields.len() == 1 {
        fields[0]
    } else {
        joined(fields.drop_last()) + seq![','] + fields.last()
    }
}

/// Splitting loses nothing and leaves no comma behind: there is at least one
/// field, no field holds a comma, and the fields joined by commas are the
/// text again.
pub proof fn lemma_split_fields_join(text: Seq<char>)
    ensures
        split_fields(text).len() >= 1,
        joined(split_fields(text)) == text,
        forall|i: int|
            0 <= i < split_fields(text).len() ==> !(#[trigger] split_fields(text)[i]).contains(','),
    decreases text.len(),
{
    let now = split_fields(text);
    if text.len() == 0 {
        assert(joined(now) =~= text);
    } else {
        let rest = text.drop_last();
        let c = text.last();
        lemma_split_fields_join(rest);
        let before = split_fields(rest);
        assert(text =~= rest.push(c));
        if c == ',' {
            assert(now == before.push(Seq::<char>::empty()));
            assert(now.drop_last() =~= before);
            assert(joined(now) =~= text);
            assert forall|i: int| 0 <= i < now.len() implies !(#[trigger] now[i]).contains(',') by {
                if i < before.len() {
                    assert(now[i] == before[i]);
                }
            }
        } else {
            let grown = before.last().push(c);
            assert(now == before.drop_last().push(grown));
            if before.len() == 1 {
                assert(joined(now) =~= text);
            } else {
                assert(now.drop_last() =~= before.drop_last());
                assert(joined(now) =~= joined(before).push(c));
            }
            assert forall|i: int| 0 <= i < now.len() implies !(#[trigger] now[i]).contains(',') by {
                if i < before.len() - 1 {
                    assert(now[i] == before[i]);
                } else {
                    if grown.contains(',') {
                        let w = choose|w: int| 0 <= w < grown.len() && grown[w] == ',';
                        assert(before.last()[w] == ',');
                        assert(before.last().contains(','));
                    }
                }
            }
        }
    }
}

/// The views of a sequence of strings.
pub open spec fn texts(strings: Seq<String>) -> Seq<Seq<char>> {
    strings.map_values(|s: String| s@)
}

/// The code of the comma in ASCII.
pub const COMMA: u8 = 0x2c;

/// Splits the exchange form of a vector, a comma-separated list, into its
/// fields. A text of ASCII characters alone is split in one pass.
pub fn split_components(text: &str) -> (fields: Vec<String>)
    ensures
        texts(fields@) == split_fields(text@),
{
    let ascii: bool = text.is_ascii();
    let n: usize = text.unicode_len();
    let mut fields: Vec<String> = Vec::new();
    let mut start: usize = 0;
    let mut i: usize = 0;
    proof {
        assert(text@.take(0) =~= Seq::<char>::empty());
        assert(texts(fields@).push(text@.subrange(0, 0)) =~= seq![Seq::<char>::empty()]);
    }
    while i < n
        invariant
            n == text@.len(),
            ascii == text.is_ascii(),
            start <= i <= n,
            split_fields(text@.take(i as int)) == texts(fields@).push(
                text@.subrange(start as int, i as int),
            ),
        decreases n - i,
    {
        let comma: bool = if ascii {
            text.get_ascii(i) == COMMA
        } else {
            text.get_char(i) == ','
        };
        let ghost c = text@[i as int];
        let ghost done = texts(fields@);
        let ghost open = text@.subrange(start as int, i as int);
        proof {
            assert(comma == (c == ','));
            assert(text@.take(i + 1).drop_last() =~= text@.take(i as int));
            assert(text@.take(i + 1).last() == c);
            assert(done.push(open).drop_last() =~= done);
            assert(done.push(open).last() == open);
        }
        if comma {
            fields.push(String::from_str(field_of(text, ascii, start, i)));
            start = i + 1;
            proof {
                assert(texts(fields@) =~= done.push(open));
                assert(text@.subrange(start as int, i + 1) =~= Seq::<char>::empty());
            }
        } else {
            proof {
                assert(text@.subrange(start as int, i + 1) =~= open.push(c));
            }
        }
        i += 1;
    }
    let ghost done = texts(fields@);
    fields.push(String::from_str(field_of(text, ascii, start, n)));
    proof {
        assert(text@.take(n as int) =~= text@);
        assert(texts(fields@) =~= done.push(text@.subrange(start as int, n as int)));
    }
    fields
}

/// The characters of `text` from `from` up to `to`.
fn field_of<'a>(text: &'a str, ascii: bool, from: usize, to: usize) -> (field: &'a str)
    requires
        ascii == text.is_ascii(),
        from <= to <= text@.len(),
    ensures
        field@ == text@.subrange(from as int, to as int),
{
    if ascii {
        text.substring_ascii(from, to)
    } else {
        text.substring_char(from, to)
    }
}

/// A record as the source delivers it, its vector already split into fields
/// and each field decoded: the bit pattern of the number it spells, or `None`
/// where it spells none.
#[derive(Clone, Debug)]
pub struct RawRecord {
    pub id: String,
    pub category: String,
    pub timestamp: Option<String>,
    pub components: Vec<Option<u32>>,
    pub content: Option<String>,
}

impl RawRecord {
    /// Every field of the vector spelled a number, and there is at least one.
    pub open spec fn is_decodable(&self) -> bool {
        &&& self.components@.len() > 0
        &&& forall|i: int| 0 <= i < self.components@.len() ==> (#[trigger] self.components@[i]) is Some
    }

    /// The decoded vector of a decodable record.
    pub open spec fn decoded(&self) -> Seq<u32> {
        Seq::new(self.components@.len(), |i: int| self.components@[i].unwrap())
    }

    /// The stored record that a decodable raw record becomes.
    pub open spec fn formatted(&self) -> EntityView {
        EntityView {
            id: self.id@,
            category: self.category@,
            timestamp: match self.timestamp {
                Some(t) => t@,
                None => unknown_timestamp(),
            },
            vector: self.decoded(),
            content: match self.content {
                Some(c) => c@,
                None => missing_content(),
            },
        }
    }

    /// The decoded vector, or `None` where a field spelled no number.
    pub fn decode(&self) -> (vector: Option<Vec<u32>>)
        ensures
            vector is Some <==> self.is_decodable(),
            vector is Some ==> vector.unwrap()@ == self.decoded(),
    {
        let n: usize = self.components.len();
        if n == 0 {
            return None;
        }
        let mut vector: Vec<u32> = Vec::new();
        let mut i: usize = 0;
        while i < n
            invariant
                n == self.components@.len(),
                i <= n,
                vector@.len() == i,
                forall|j: int| 0 <= j < i ==> (#[trigger] self.components@[j]) is Some,
                forall|j: int| 0 <= j < i ==> vector@[j] == self.components@[j].unwrap(),
            decreases n - i,
        {
            match self.components[i] {
                Some(bits) => {
                    vector.push(bits);
                },
                None => {
                    return None;
                },
            }
            i += 1;
        }
        proof {
            assert(vector@ =~= self.decoded());
        }
        Some(vector)
    }

    /// Builds the stored record from a raw one and its decoded vector.
    fn format(&self, vector: Vec<u32>) -> (entity: FormattedVectorEntity)
        requires
            vector@ == self.decoded(),
        ensures
            entity@ == self.formatted(),
    {
        let timestamp: String = match &self.timestamp {
            Some(t) => t.clone(),
            None => String::from_str("unknown"),
        };
        let content: String = match &self.content {
            Some(c) => c.clone(),
            None => String::from_str("N/A"),
        };
        FormattedVectorEntity {
            id: self.id.clone(),
            category: self.category.clone(),
            timestamp,
            vector,
            content,
        }
    }
}

/// All vectors of `records` have the same length.
pub open spec fn uniform(records: Seq<EntityView>) -> bool {
    forall|i: int|
        0 <= i < records.len() ==> (#[trigger] records[i]).vector.len() == records[0].vector.len()
}

/// Whether a load that has kept `kept` so far keeps `raw`: its vector decodes
/// and has the dimension of the first record kept.
pub open spec fn accepts(kept: Seq<EntityView>, raw: RawRecord) -> bool {
    raw.is_decodable() && (kept.len() == 0 || kept[0].vector.len() == raw.components@.len())
}

/// The records that a load of `raws` keeps, in the order of `raws`.
pub open spec fn loaded(raws: Seq<RawRecord>) -> Seq<EntityView>
    decreases raws.len(),
{
    if raws.len() == 0 {
        Seq::empty()
    } else {
        let kept = loaded(raws.drop_last());
        if accepts(kept, raws.last()) {
            kept.push(raws.last().formatted())
        } else {
            kept
        }
    }
}

/// A load keeps no more records than it was given, and those it keeps share
/// one dimension.
pub proof fn lemma_loaded_uniform(raws: Seq<RawRecord>)
    ensures
        loaded(raws).len() <= raws.len(),
        uniform(loaded(raws)),
    decreases raws.len(),
{
    if raws.len() > 0 {
        lemma_loaded_uniform(raws.drop_last());
        let kept = loaded(raws.drop_last());
        if accepts(kept, raws.last()) {
            assert(raws.last().decoded().len() == raws.last().components@.len());
            assert forall|i: int| 0 <= i < loaded(raws).len() implies (#[trigger] loaded(
                raws,
            )[i]).vector.len() == loaded(raws)[0].vector.len() by {
                if i < kept.len() {
                    assert(loaded(raws)[i] == kept[i]);
                }
            }
        }
    }
}

/// Why a load failed as a whole.
#[derive(Debug)]
pub enum LoadError {
    /// The source of records could not be reached; the text is its reason.
    SourceUnavailable(String),
}

/// The views of a sequence of records.
pub open spec fn entity_views(records: Seq<FormattedVectorEntity>) -> Seq<EntityView> {
    records.map_values(|r: FormattedVectorEntity| r@)
}

/// An immutable snapshot of records that share one dimension.
#[derive(Debug)]
pub struct VectorStore {
    records: Vec<FormattedVectorEntity>,
    skipped: usize,
}

impl View for VectorStore {
    type V = Seq<EntityView>;

    closed spec fn view(&self) -> Seq<EntityView> {
        entity_views(self.records@)
    }
}

impl VectorStore {
    #[verifier::type_invariant]
    spec fn well_formed(self) -> bool {
        uniform(entity_views(self.records@))
    }

    /// How many raw records the load left out.
    pub closed spec fn skipped_count(&self) -> nat {
        self.skipped as nat
    }

    /// A store without records.
    pub fn new() -> (store: VectorStore)
        ensures
            store@.len() == 0,
            store.skipped_count() == 0,
    {
        VectorStore { records: Vec::new(), skipped: 0 }
    }

    /// Builds the store from what the source delivered. A record whose vector
    /// does not decode, or whose dimension differs from that of the first
    /// record kept, is left out and counted; the load fails only where the
    /// source itself did.
    pub fn load(source: Result<Vec<RawRecord>, String>) -> (res: Result<VectorStore, LoadError>)
        ensures
            match (source, res) {
                (Ok(raws), Ok(store)) => store@ == loaded(raws@) && store.skipped_count()
                    == raws@.len() - loaded(raws@).len(),
                (Err(reason), Err(LoadError::SourceUnavailable(told))) => told == reason,
                _ => false,
            },
    {
        let raws: Vec<RawRecord> = match source {
            Ok(raws) => raws,
            Err(reason) => {
                return Err(LoadError::SourceUnavailable(reason));
            },
        };
        let n: usize = raws.len();
        let mut records: Vec<FormattedVectorEntity> = Vec::new();
        let mut skipped: usize = 0;
        let mut i: usize = 0;
        proof {
            assert(raws@.take(0) =~= Seq::<RawRecord>::empty());
            assert(entity_views(records@) =~= Seq::<EntityView>::empty());
        }
        while i < n
            invariant
                n == raws@.len(),
                i <= n,
                entity_views(records@) == loaded(raws@.take(i as int)),
                records@.len() + skipped == i,
                uniform(entity_views(records@)),
            decreases n - i,
        {
            let raw: &RawRecord = &raws[i];
            let ghost kept = entity_views(records@);
            proof {
                assert(raws@.take(i + 1).drop_last() =~= raws@.take(i as int));
                assert(raws@.take(i + 1).last() == raws@[i as int]);
            }
            let fits: bool = records.len() == 0 || records[0].vector.len() == raw.components.len();
            proof {
                if records@.len() > 0 {
                    assert(kept[0] == records@[0]@);
                }
            }
            let decoded: Option<Vec<u32>> = if fits {
                raw.decode()
            } else {
                None
            };
            match decoded {
                Some(vector) => {
                    let entity: FormattedVectorEntity = raw.format(vector);
                    records.push(entity);
                    proof {
                        assert(entity_views(records@) =~= kept.push(raw.formatted()));
                        assert(raw.decoded().len() == raw.components@.len());
                    }
                },
                None => {
                    skipped += 1;
                },
            }
            i += 1;
        }
        proof {
            assert(raws@.take(n as int) =~= raws@);
        }
        Ok(VectorStore { records, skipped })
    }

    /// The records in load order.
    pub fn all(&self) -> (records: &Vec<FormattedVectorEntity>)
        ensures
            entity_views(records@) == self@,
            uniform(self@),
    {
        proof {
            use_type_invariant(self);
        }
        &self.records
    }

    /// The number of records.
    pub fn len(&self) -> (n: usize)
        ensures
            n == self@.len(),
    {
        self.records.len()
    }

    /// How many raw records the load left out.
    pub fn skipped(&self) -> (n: usize)
        ensures
            n == self.skipped_count(),
    {
        self.skipped
    }

    /// The dimension that all records share, or `None` for an empty store.
    pub fn dimension(&self) -> (d: Option<usize>)
        ensures
            d is None <==> self@.len() == 0,
            d is Some ==> forall|i: int|
                0 <= i < self@.len() ==> (#[trigger] self@[i]).vector.len() == d.unwrap(),
    {
        proof {
            use_type_invariant(self);
        }
        if self.records.len() == 0 {
            None
        } else {
            proof {
                assert(self@[0] == self.records@[0]@);
            }
            Some(self.records[0].vector.len())
        }
    }
}

} // verus!
