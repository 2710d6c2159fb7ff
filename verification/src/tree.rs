//! Tree maintenance planning: the rows a metric creation inserts (the full
//! directory chain, the metric leaf, and the metadata record) and the rows a
//! deletion removes, together with a store model proving that creating and
//! then deleting a metric leaves only its ancestor directories behind.

use vstd::prelude::*;
use crate::pattern::{end_marker, COMPONENTS};
use crate::text::{
    is_split, join_dotted, join_with, lemma_join_push, pair_views, split_on, views_of,
};

verus! {

/// Deepest storable path: the sentinel must still fit in the component
/// column at the position equal to the segment count.
pub const MAX_PATH_SEGMENTS: usize = COMPONENTS - 1;

#[derive(Clone, Copy, Debug, PartialEq, Eq, Structural)]
pub enum TreeError {
    /// The path has more segments than the component schema can hold.
    PathTooDeep,
}

/// One row of the directories or metrics table: the path, the parent path
/// with its trailing separator, and the fixed-width component encoding ended
/// by the sentinel.
pub struct DirectoryRow {
    pub name: String,
    pub parent: String,
    pub components: Vec<String>,
}

/// The dotted path of the first `n` segments.
pub open spec fn prefix_name(segs: Seq<Seq<char>>, n: int) -> Seq<char> {
    join_with(segs.subrange(0, n), '.')
}

/// `row` is the stored encoding of the depth-`n` prefix of `segs`.
pub open spec fn dir_row_matches(row: DirectoryRow, segs: Seq<Seq<char>>, n: int) -> bool {
    &&& row.name@ == prefix_name(segs, n)
    &&& row.parent@ == prefix_name(segs, n - 1) + seq!['.']
    &&& views_of(row.components@) == segs.subrange(0, n).push(end_marker())
}

/// Everything one metric creation writes: a directory row per path prefix,
/// the metric leaf row, and the metadata record with a fresh id and the
/// default configuration.
pub struct CreatePlan {
    pub directories: Vec<DirectoryRow>,
    pub metric_row: DirectoryRow,
    pub metadata_name: String,
    pub metadata_id: String,
    pub config: Vec<(String, String)>,
}

/// The configuration a new metric starts with.
pub open spec fn default_config_v() -> Seq<(Seq<char>, Seq<char>)> {
    seq![
        ("aggregator"@, "average"@),
        ("carbon_xfilesfactor"@, "0.500000"@),
        ("retention"@, "11520*60s:720*3600s:730*86400s"@),
    ]
}

/// `plan` is exactly the creation plan for the path with segments `segs`.
pub open spec fn create_plan_matches(plan: CreatePlan, segs: Seq<Seq<char>>) -> bool {
    &&& plan.directories@.len() == segs.len()
    &&& (forall|k: int|
        0 <= k < segs.len() ==> dir_row_matches(#[trigger] plan.directories@[k], segs, k + 1))
    &&& dir_row_matches(plan.metric_row, segs, segs.len() as int)
    &&& plan.metadata_name@ == prefix_name(segs, segs.len() as int)
    &&& plan.metadata_id@.len() == 36
    &&& pair_views(plan.config@) == default_config_v()
}

/// Relies on `uuid::Uuid::new_v4` and its hyphenated formatter: a fresh
/// random UUID rendered in the 36-character hyphenated form.
#[verifier::external_body]
fn new_uuid_string() -> (r: String)
    ensures
        r@.len() == 36,
{
    uuid::Uuid::new_v4().hyphenated().to_string()
}

/// The default configuration pairs of a new metric.
fn default_config() -> (r: Vec<(String, String)>)
    ensures
        pair_views(r@) == default_config_v(),
{
    let mut out: Vec<(String, String)> = Vec::new();
    out.push((String::from_str("aggregator"), String::from_str("average")));
    out.push((String::from_str("carbon_xfilesfactor"), String::from_str("0.500000")));
    out.push(
        (String::from_str("retention"), String::from_str("11520*60s:720*3600s:730*86400s")),
    );
    proof {
        assert(pair_views(out@) =~= default_config_v());
    }
    out
}

/// The stored row of the depth-`n` prefix of the path.
fn build_row(segments: &Vec<String>, n: usize) -> (row: DirectoryRow)
    requires
        1 <= n <= segments@.len(),
    ensures
        dir_row_matches(row, views_of(segments@), n as int),
{
    let name = join_dotted(segments, n);
    let mut parent = join_dotted(segments, n - 1);
    proof {
        reveal_strlit(".");
        assert(parent@ + "."@ =~= prefix_name(views_of(segments@), n - 1) + seq!['.']);
    }
    parent.append(".");
    let mut components: Vec<String> = Vec::new();
    let mut i: usize = 0;
    while i < n
        invariant
            i <= n <= segments@.len(),
            views_of(components@) =~= views_of(segments@).subrange(0, i as int),
        decreases n - i,
    {
        let seg = segments[i].clone();
        proof {
            assert(views_of(components@.push(seg)) =~= views_of(components@).push(seg@));
            assert(views_of(segments@).subrange(0, i + 1) =~= views_of(segments@).subrange(
                0,
                i as int,
            ).push(views_of(segments@)[i as int]));
        }
        components.push(seg);
        i = i + 1;
    }
    let sentinel = String::from_str("__END__");
    proof {
        assert(views_of(components@.push(sentinel)) =~= views_of(components@).push(end_marker()));
    }
    components.push(sentinel);
    DirectoryRow { name, parent, components }
}

/// The creation plan for a path already split into segments: one directory
/// row per prefix depth, the leaf row, the metadata record with a fresh id
/// and the default configuration.
pub fn create_plan_from_segments(segments: &Vec<String>) -> (plan: CreatePlan)
    requires
        1 <= segments@.len() <= MAX_PATH_SEGMENTS,
    ensures
        create_plan_matches(plan, views_of(segments@)),
{
    let len = segments.len();
    let mut directories: Vec<DirectoryRow> = Vec::new();
    let mut k: usize = 0;
    while k < len
        invariant
            k <= len == segments@.len(),
            directories@.len() == k,
            forall|j: int|
                0 <= j < k ==> dir_row_matches(
                    #[trigger] directories@[j],
                    views_of(segments@),
                    j + 1,
                ),
        decreases len - k,
    {
        let row = build_row(segments, k + 1);
        directories.push(row);
        k = k + 1;
    }
    let metric_row = build_row(segments, len);
    let metadata_name = join_dotted(segments, len);
    proof {
        assert(views_of(segments@).subrange(0, len as int) =~= views_of(segments@));
    }
    let metadata_id = new_uuid_string();
    let config = default_config();
    CreatePlan { directories, metric_row, metadata_name, metadata_id, config }
}

/// What [`create_plan`] yields for a path that splits on `.` into `segs`:
/// the full creation plan, or a rejection when the path is too deep for the
/// component schema.
pub open spec fn create_outcome(
    name: Seq<char>,
    segs: Seq<Seq<char>>,
    r: Result<CreatePlan, TreeError>,
) -> bool {
    &&& is_split(name, '.', segs)
    &&& segs.len() <= MAX_PATH_SEGMENTS ==> (r matches Ok(plan) && create_plan_matches(
        plan,
        segs,
    ))
    &&& segs.len() > MAX_PATH_SEGMENTS ==> r == Err::<CreatePlan, TreeError>(
        TreeError::PathTooDeep,
    )
}

/// The creation plan for a dotted metric path; a path with more segments
/// than the component schema can hold is rejected.
pub fn create_plan(name: &str) -> (r: Result<CreatePlan, TreeError>)
    ensures
        exists|segs: Seq<Seq<char>>| create_outcome(name@, segs, r),
{
    let segments = split_on(name, '.');
    if segments.len() > MAX_PATH_SEGMENTS {
        proof {
            assert(create_outcome(
                name@,
                views_of(segments@),
                Err::<CreatePlan, TreeError>(TreeError::PathTooDeep),
            ));
        }
        return Err(TreeError::PathTooDeep);
    }
    let plan = create_plan_from_segments(&segments);
    proof {
        assert(create_outcome(name@, views_of(segments@), Ok::<CreatePlan, TreeError>(plan)));
    }
    Ok(plan)
}

/// Everything one metric deletion removes: the metadata record, the metric
/// leaf row, and the path's own directory row. Ancestor directory rows are
/// left for garbage collection.
pub struct DeletePlan {
    pub metadata_name: String,
    pub metric_name: String,
    pub directory_name: String,
}

/// The deletion plan for a metric path: each of the three records under the
/// path's own name, exactly once.
pub fn delete_plan(name: &str) -> (plan: DeletePlan)
    ensures
        plan.metadata_name@ == name@,
        plan.metric_name@ == name@,
        plan.directory_name@ == name@,
{
    DeletePlan {
        metadata_name: name.to_owned(),
        metric_name: name.to_owned(),
        directory_name: name.to_owned(),
    }
}

/// An abstract view of the metadata store: the names present in each of the
/// three tables.
pub struct StoreModel {
    pub metadata: Set<Seq<char>>,
    pub metrics: Set<Seq<char>>,
    pub directories: Set<Seq<char>>,
}

/// The directory names a creation inserts: every prefix of the path.
pub open spec fn created_directories(segs: Seq<Seq<char>>) -> Set<Seq<char>> {
    Set::new(|x: Seq<char>| exists|n: int| 1 <= n <= segs.len() && x == prefix_name(segs, n))
}

/// The store after the creation plan for `segs` is applied.
pub open spec fn apply_create(m: StoreModel, segs: Seq<Seq<char>>) -> StoreModel {
    StoreModel {
        metadata: m.metadata.insert(prefix_name(segs, segs.len() as int)),
        metrics: m.metrics.insert(prefix_name(segs, segs.len() as int)),
        directories: m.directories.union(created_directories(segs)),
    }
}

/// The store after the deletion plan for `name` is applied.
pub open spec fn apply_delete(m: StoreModel, name: Seq<char>) -> StoreModel {
    StoreModel {
        metadata: m.metadata.remove(name),
        metrics: m.metrics.remove(name),
        directories: m.directories.remove(name),
    }
}

/// Prefix paths strictly lengthen with depth.
proof fn lemma_prefix_len_increases(segs: Seq<Seq<char>>, a: int, b: int)
    requires
        1 <= a <= b <= segs.len(),
    ensures
        prefix_name(segs, a).len() <= prefix_name(segs, b).len(),
        a < b ==> prefix_name(segs, a).len() < prefix_name(segs, b).len(),
    decreases b - a,
{
    if a < b {
        lemma_prefix_len_increases(segs, a, b - 1);
        assert(segs.subrange(0, b) =~= segs.subrange(0, b - 1).push(segs[b - 1]));
        lemma_join_push(segs.subrange(0, b - 1), segs[b - 1], '.');
    }
}

/// Creating a metric and then deleting the same name leaves no metadata
/// record and no metric leaf row for the name, while every proper ancestor
/// directory row the creation inserted is still present.
pub proof fn lemma_create_then_delete(m: StoreModel, segs: Seq<Seq<char>>)
    requires
        segs.len() >= 1,
    ensures
        !apply_delete(apply_create(m, segs), prefix_name(segs, segs.len() as int)).metadata
            .contains(prefix_name(segs, segs.len() as int)),
        !apply_delete(apply_create(m, segs), prefix_name(segs, segs.len() as int)).metrics
            .contains(prefix_name(segs, segs.len() as int)),
        forall|n: int|
            1 <= n < segs.len() ==> apply_delete(
                apply_create(m, segs),
                prefix_name(segs, segs.len() as int),
            ).directories.contains(#[trigger] prefix_name(segs, n)),
{
    let full = prefix_name(segs, segs.len() as int);
    let after = apply_delete(apply_create(m, segs), full);
    assert forall|n: int| 1 <= n < segs.len() implies after.directories.contains(
        #[trigger] prefix_name(segs, n),
    ) by {
        lemma_prefix_len_increases(segs, n, segs.len() as int);
        assert(prefix_name(segs, n) != full);
        assert(created_directories(segs).contains(prefix_name(segs, n)));
    }
}

} // verus!
