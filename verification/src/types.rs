use vstd::prelude::*;

verus! {

/// The closed set of media kinds an entity can have. The kind is fixed when the
/// entity is first recorded and may never change afterwards.
#[derive(Clone, Copy, Debug, PartialEq, Eq, Structural)]
pub enum EntityType {
    Sticker,
    Animation,
    Photo,
    Video,
}

/// The closed set of orderings a search can ask for.
#[derive(Clone, Copy, Debug, PartialEq, Eq, Structural)]
pub enum EntitySort {
    LastAdded,
    FirstAdded,
    LastUsed,
    FirstUsed,
    MostUsed,
    LeastUsed,
    Random,
}

/// The ORDER BY fragment each sort mode stands for on a SQL backend.
pub open spec fn sort_sql(s: EntitySort) -> Seq<char> {
    match s {
        EntitySort::LastAdded => "entity_data.created_at DESC"@,
        EntitySort::FirstAdded => "entity_data.created_at ASC"@,
        EntitySort::LastUsed => "entity_data.last_used DESC"@,
        EntitySort::FirstUsed => "entity_data.last_used ASC"@,
        EntitySort::MostUsed => "entity_data.count DESC"@,
        EntitySort::LeastUsed => "entity_data.count ASC"@,
        EntitySort::Random => "RANDOM()"@,
    }
}

impl EntitySort {
    /// Render this sort mode as a SQL ORDER BY fragment.
    pub fn to_sql(&self) -> (r: &'static str)
        ensures
            r@ == sort_sql(*self),
    {
        match self {
            EntitySort::LastAdded => "entity_data.created_at DESC",
            EntitySort::FirstAdded => "entity_data.created_at ASC",
            EntitySort::LastUsed => "entity_data.last_used DESC",
            EntitySort::FirstUsed => "entity_data.last_used ASC",
            EntitySort::MostUsed => "entity_data.count DESC",
            EntitySort::LeastUsed => "entity_data.count ASC",
            EntitySort::Random => "RANDOM()",
        }
    }
}

impl Default for EntitySort {
    fn default() -> (r: Self)
        ensures
            r == EntitySort::MostUsed,
    {
        EntitySort::MostUsed
    }
}

/// One entity to be tagged: its stable identifier together with the current
/// (volatile) file reference issued by the media platform.
#[derive(Debug, Clone)]
pub struct InsertEntity {
    pub entity_id: String,
    pub file_id: String,
}

impl Default for InsertEntity {
    fn default() -> (r: Self)
        ensures
            r.entity_id@ == Seq::<char>::empty(),
            r.file_id@ == Seq::<char>::empty(),
    {
        InsertEntity { entity_id: String::new(), file_id: String::new() }
    }
}

/// A parsed inline search request.
#[derive(Debug, Clone)]
pub struct InlineSearchQuery {
    pub tags: Vec<String>,
    pub negative_tags: Vec<String>,
    pub sort: EntitySort,
    pub entity_type: Option<EntityType>,
    pub get_all: bool,
}

impl Default for InlineSearchQuery {
    fn default() -> (r: Self)
        ensures
            r.tags@ == Seq::<String>::empty(),
            r.negative_tags@ == Seq::<String>::empty(),
            r.sort == EntitySort::MostUsed,
            r.entity_type is None,
            r.get_all == false,
    {
        InlineSearchQuery {
            tags: Vec::new(),
            negative_tags: Vec::new(),
            sort: EntitySort::MostUsed,
            entity_type: None,
            get_all: false,
        }
    }
}

/// A search result row: an entity resolved to its current file reference and
/// kind, scoped to the user the query ran for.
#[derive(Debug, Clone, PartialEq)]
pub struct Entity {
    pub entity_id: String,
    pub file_id: String,
    pub user_id: String,
    pub entity_type: EntityType,
}

/// Per-user usage record for one entity. `count` is how often the entity was
/// selected, `last_used` the time of the most recent selection, `created_at`
/// the time the record was first created. Times are epoch milliseconds.
#[derive(Debug, Clone, PartialEq)]
pub struct EntityStat {
    pub user_id: String,
    pub entity_id: String,
    pub count: i64,
    pub last_used: i64,
    pub created_at: i64,
}

/// Read-only global counters over the whole store.
#[derive(Debug, Clone, PartialEq)]
pub struct GlobalStats {
    pub total_users: i64,
    pub total_tags: i64,
    pub total_stickers: i64,
    pub total_animations: i64,
    pub total_videos: i64,
    pub total_photos: i64,
    pub total_entities_sent: i64,
}

/// One record of the bulk transfer format: everything known about one tagged
/// entity for one user.
#[derive(Debug, Clone, PartialEq)]
pub struct ImportItem {
    pub entity_id: String,
    pub file_id: String,
    pub entity_type: EntityType,
    pub tags: Vec<String>,
    pub count: i64,
    pub last_used: i64,
    pub created_at: i64,
}

/// One record of the third-party exporter's format. Its media kind is not
/// stored directly; it is derived from the encoded file reference.
#[derive(Debug, Clone, PartialEq)]
pub struct QSBotImportItem {
    pub id: String,
    pub file_id: String,
    pub tags: Vec<String>,
}

/// The error taxonomy of the store.
#[derive(Clone, Copy, Debug, PartialEq, Eq, Structural)]
pub enum StoreError {
    /// An entity was asked to change its media kind.
    Consistency,
    /// A bulk import payload could not be decoded.
    Serialization,
    /// An encoded file reference did not denote a known media kind.
    UnknownFileType,
}

} // verus!
