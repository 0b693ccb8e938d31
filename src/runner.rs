use vstd::prelude::*;

use crate::config::{ConfigSource, FileContents, Format, detected_format, load_config_file, load_spec};
use crate::config_map::ConfigMap;
use crate::error::{ConfixError, same_error};

verus! {

/// Folds maps left to right; on a shared key the later map's value wins.
pub open spec fn merged(ms: Seq<Map<Seq<char>, Seq<char>>>) -> Map<Seq<char>, Seq<char>>
    decreases ms.len(),
{
    if ms.len() == 0 {
        Map::empty()
    } else {
        merged(ms.drop_last()).union_prefer_right(ms.last())
    }
}

pub open spec fn maps_of(ms: Seq<ConfigMap>) -> Seq<Map<Seq<char>, Seq<char>>> {
    ms.map_values(|m: ConfigMap| m@)
}

/// The first `ms.len()` sources load to the maps `ms`, in order.
pub open spec fn loads_prefix(sources: Seq<ConfigSource>, ms: Seq<ConfigMap>) -> bool {
    &&& ms.len() <= sources.len()
    &&& forall|i: int| 0 <= i < ms.len() ==> load_spec(sources[i], Ok(#[trigger] ms[i]))
}

/// Every source loads, to the maps `ms`, and `m` is their left-to-right merge.
pub open spec fn merge_of(
    sources: Seq<ConfigSource>,
    ms: Seq<ConfigMap>,
    m: Map<Seq<char>, Seq<char>>,
) -> bool {
    &&& ms.len() == sources.len()
    &&& loads_prefix(sources, ms)
    &&& m == merged(maps_of(ms))
}

/// The sources before position `ms.len()` load, to `ms`, and the source at that
/// position fails with `e`.
pub open spec fn first_failure(sources: Seq<ConfigSource>, ms: Seq<ConfigMap>, e: ConfixError) -> bool {
    &&& ms.len() < sources.len()
    &&& loads_prefix(sources, ms)
    &&& load_spec(sources[ms.len() as int], Err(e))
}

/// The outcomes that merging `sources` may have: the left-to-right merge of
/// what every source loads to, or the error of the first source that fails.
pub open spec fn merge_spec(sources: Seq<ConfigSource>, r: Result<ConfigMap, ConfixError>) -> bool {
    match r {
        Ok(m) => m.wf() && exists|ms: Seq<ConfigMap>| #[trigger] merge_of(sources, ms, m@),
        Err(e) => exists|ms: Seq<ConfigMap>| #[trigger] first_failure(sources, ms, e),
    }
}

/// Loads every source in the given order and merges them, later files
/// overriding earlier ones. The first source that fails to load aborts the
/// merge with its error.
pub fn merge_configs(sources: &Vec<ConfigSource>) -> (r: Result<ConfigMap, ConfixError>)
    ensures
        sources@.len() == 0 ==> r is Ok && r->Ok_0@ == Map::<Seq<char>, Seq<char>>::empty(),
        merge_spec(sources@, r),
{
    let mut acc = ConfigMap::new();
    let ghost mut loaded: Seq<ConfigMap> = Seq::empty();
    let mut i: usize = 0;
    while i < sources.len()
        invariant
            i <= sources@.len(),
            loaded.len() == i,
            loads_prefix(sources@, loaded),
            acc.wf(),
            acc@ == merged(maps_of(loaded)),
        decreases sources@.len() - i,
    {
        match load_config_file(&sources[i]) {
            Ok(cfg) => {
                proof {
                    let next = loaded.push(cfg);
                    assert(maps_of(next).drop_last() == maps_of(loaded));
                    assert(maps_of(next).last() == cfg@);
                    assert forall|j: int| 0 <= j < next.len() implies load_spec(
                        sources@[j],
                        Ok(#[trigger] next[j]),
                    ) by {
                        if j < loaded.len() {
                            assert(next[j] == loaded[j]);
                        }
                    }
                    loaded = next;
                }
                acc.extend(cfg);
            },
            Err(e) => {
                assert(first_failure(sources@, loaded, e));
                return Err(e);
            },
        }
        i = i + 1;
    }
    assert(merge_of(sources@, loaded, acc@));
    assert(exists|ms: Seq<ConfigMap>| #[trigger] merge_of(sources@, ms, acc@));
    if sources.len() == 0 {
        assert(maps_of(loaded).len() == 0);
    }
    Ok(acc)
}

proof fn lemma_merged_dom(ms: Seq<Map<Seq<char>, Seq<char>>>, k: Seq<char>)
    ensures
        merged(ms).contains_key(k) <==> exists|i: int| 0 <= i < ms.len() && #[trigger] ms[i].contains_key(k),
    decreases ms.len(),
{
    if ms.len() > 0 {
        let d = ms.drop_last();
        lemma_merged_dom(d, k);
        if merged(d).contains_key(k) {
            let i = choose|i: int| 0 <= i < d.len() && #[trigger] d[i].contains_key(k);
            assert(ms[i].contains_key(k));
        }
        if exists|i: int| 0 <= i < ms.len() && #[trigger] ms[i].contains_key(k) {
            let i = choose|i: int| 0 <= i < ms.len() && #[trigger] ms[i].contains_key(k);
            if i < ms.len() - 1 {
                assert(d[i].contains_key(k));
            }
        }
    }
}

proof fn lemma_merged_value(ms: Seq<Map<Seq<char>, Seq<char>>>, k: Seq<char>, i: int)
    requires
        0 <= i < ms.len(),
        ms[i].contains_key(k),
        forall|j: int| i < j < ms.len() ==> !(#[trigger] ms[j]).contains_key(k),
    ensures
        merged(ms).contains_key(k),
        merged(ms)[k] == ms[i][k],
    decreases ms.len(),
{
    let d = ms.drop_last();
    if i < ms.len() - 1 {
        assert(!ms[ms.len() - 1].contains_key(k));
        assert(d[i] == ms[i]);
        assert forall|j: int| i < j < d.len() implies !(#[trigger] d[j]).contains_key(k) by {
            assert(d[j] == ms[j]);
        }
        lemma_merged_value(d, k, i);
    }
}

/// Merging is folding with last-write-wins: a key is in the merge exactly when
/// some map holds it, and its value is the one of the last map that holds it.
/// Merging no maps gives the empty map.
pub proof fn lemma_merged_last_wins(ms: Seq<Map<Seq<char>, Seq<char>>>, k: Seq<char>)
    ensures
        merged(Seq::<Map<Seq<char>, Seq<char>>>::empty()) == Map::<Seq<char>, Seq<char>>::empty(),
        merged(ms).contains_key(k) <==> exists|i: int| 0 <= i < ms.len() && #[trigger] ms[i].contains_key(k),
        forall|i: int|
            0 <= i < ms.len() && #[trigger] ms[i].contains_key(k) && (forall|j: int|
                i < j < ms.len() ==> !(#[trigger] ms[j]).contains_key(k)) ==> merged(ms)[k] == ms[i][k],
{
    lemma_merged_dom(ms, k);
    assert forall|i: int|
        0 <= i < ms.len() && #[trigger] ms[i].contains_key(k) && (forall|j: int|
            i < j < ms.len() ==> !(#[trigger] ms[j]).contains_key(k)) implies merged(ms)[k] == ms[i][k] by {
        lemma_merged_value(ms, k, i);
    }
}

/// Merging the maps of two lists in sequence is merging the two merges, the
/// second one winning.
pub proof fn lemma_merged_concat(
    a: Seq<Map<Seq<char>, Seq<char>>>,
    b: Seq<Map<Seq<char>, Seq<char>>>,
)
    ensures
        merged(a + b) == merged(a).union_prefer_right(merged(b)),
    decreases b.len(),
{
    if b.len() == 0 {
        assert(a + b == a);
        assert(merged(a).union_prefer_right(Map::empty()) =~= merged(a));
    } else {
        lemma_merged_concat(a, b.drop_last());
        assert((a + b).drop_last() == a + b.drop_last());
        assert((a + b).last() == b.last());
        assert(merged(a + b) =~= merged(a).union_prefer_right(merged(b)));
    }
}

/// Merging one map gives that map, and merging a list of maps twice over gives
/// the same as merging it once.
pub proof fn lemma_merged_single_and_twice(
    m: Map<Seq<char>, Seq<char>>,
    a: Seq<Map<Seq<char>, Seq<char>>>,
)
    ensures
        merged(seq![m]) == m,
        merged(a + a) == merged(a),
{
    let one = seq![m];
    assert(one.drop_last() == Seq::<Map<Seq<char>, Seq<char>>>::empty());
    assert(one.last() == m);
    assert(merged(one.drop_last()) == Map::<Seq<char>, Seq<char>>::empty());
    assert(Map::<Seq<char>, Seq<char>>::empty().union_prefer_right(m) =~= m);
    lemma_merged_concat(a, a);
    assert(merged(a).union_prefer_right(merged(a)) =~= merged(a));
}

/// The map a source loads to depends on nothing but the source: it is not a
/// dotenv text, whose values may be filled in from the process environment.
pub open spec fn load_is_fixed(src: ConfigSource) -> bool {
    !(src.contents is Text && detected_format(src.path@) == Some(Format::Dotenv))
}

/// Two loads of the same source agree: both succeed or both fail; two
/// failures are the same error; two maps have the same keys, and are equal
/// when the source is fixed.
pub proof fn lemma_load_outcomes_agree(
    src: ConfigSource,
    r1: Result<ConfigMap, ConfixError>,
    r2: Result<ConfigMap, ConfixError>,
)
    requires
        load_spec(src, r1),
        load_spec(src, r2),
    ensures
        r1 is Ok <==> r2 is Ok,
        r1 is Ok && r2 is Ok ==> r1->Ok_0@.dom() == r2->Ok_0@.dom(),
        r1 is Ok && r2 is Ok && load_is_fixed(src) ==> r1->Ok_0@ == r2->Ok_0@,
        r1 is Err && r2 is Err ==> same_error(r1->Err_0, r2->Err_0),
{
}

/// Two merges of the same sources agree: both succeed or both fail; two
/// failures are the same error, from the same source; two maps have the same
/// keys, and are equal when every source is fixed.
pub proof fn lemma_merge_outcomes_agree(
    sources: Seq<ConfigSource>,
    r1: Result<ConfigMap, ConfixError>,
    r2: Result<ConfigMap, ConfixError>,
)
    requires
        merge_spec(sources, r1),
        merge_spec(sources, r2),
    ensures
        r1 is Ok <==> r2 is Ok,
        r1 is Ok && r2 is Ok ==> r1->Ok_0@.dom() == r2->Ok_0@.dom(),
        r1 is Ok && r2 is Ok && (forall|i: int| 0 <= i < sources.len() ==> load_is_fixed(#[trigger] sources[i]))
            ==> r1->Ok_0@ == r2->Ok_0@,
        r1 is Err && r2 is Err ==> same_error(r1->Err_0, r2->Err_0),
{
    match (r1, r2) {
        (Ok(m1), Ok(m2)) => {
            let ms1 = choose|ms: Seq<ConfigMap>| #[trigger] merge_of(sources, ms, m1@);
            let ms2 = choose|ms: Seq<ConfigMap>| #[trigger] merge_of(sources, ms, m2@);
            lemma_merges_agree(sources, ms1, ms2);
        },
        (Ok(m1), Err(e2)) => {
            let ms1 = choose|ms: Seq<ConfigMap>| #[trigger] merge_of(sources, ms, m1@);
            let ms2 = choose|ms: Seq<ConfigMap>| #[trigger] first_failure(sources, ms, e2);
            let j = ms2.len() as int;
            lemma_load_outcomes_agree(sources[j], Ok(ms1[j]), Err(e2));
        },
        (Err(e1), Ok(m2)) => {
            let ms1 = choose|ms: Seq<ConfigMap>| #[trigger] first_failure(sources, ms, e1);
            let ms2 = choose|ms: Seq<ConfigMap>| #[trigger] merge_of(sources, ms, m2@);
            let j = ms1.len() as int;
            lemma_load_outcomes_agree(sources[j], Err(e1), Ok(ms2[j]));
        },
        (Err(e1), Err(e2)) => {
            let ms1 = choose|ms: Seq<ConfigMap>| #[trigger] first_failure(sources, ms, e1);
            let ms2 = choose|ms: Seq<ConfigMap>| #[trigger] first_failure(sources, ms, e2);
            let j1 = ms1.len() as int;
            let j2 = ms2.len() as int;
            if j1 < j2 {
                lemma_load_outcomes_agree(sources[j1], Err(e1), Ok(ms2[j1]));
            } else if j2 < j1 {
                lemma_load_outcomes_agree(sources[j2], Ok(ms1[j2]), Err(e2));
            } else {
                lemma_load_outcomes_agree(sources[j1], Err(e1), Err(e2));
            }
        },
    }
}

proof fn lemma_merges_agree(sources: Seq<ConfigSource>, ms1: Seq<ConfigMap>, ms2: Seq<ConfigMap>)
    requires
        ms1.len() == sources.len(),
        ms2.len() == sources.len(),
        loads_prefix(sources, ms1),
        loads_prefix(sources, ms2),
    ensures
        merged(maps_of(ms1)).dom() == merged(maps_of(ms2)).dom(),
        (forall|i: int| 0 <= i < sources.len() ==> load_is_fixed(#[trigger] sources[i]))
            ==> merged(maps_of(ms1)) == merged(maps_of(ms2)),
{
    assert forall|i: int| 0 <= i < ms1.len() implies (#[trigger] maps_of(ms1)[i]).dom() == maps_of(ms2)[i].dom()
        && (load_is_fixed(sources[i]) ==> maps_of(ms1)[i] == maps_of(ms2)[i]) by {
        lemma_load_outcomes_agree(sources[i], Ok(ms1[i]), Ok(ms2[i]));
    }
    assert forall|k: Seq<char>| merged(maps_of(ms1)).dom().contains(k) <==> merged(maps_of(ms2)).dom().contains(k) by {
        lemma_merged_dom(maps_of(ms1), k);
        lemma_merged_dom(maps_of(ms2), k);
        if exists|i: int| 0 <= i < maps_of(ms1).len() && #[trigger] maps_of(ms1)[i].contains_key(k) {
            let i = choose|i: int| 0 <= i < maps_of(ms1).len() && #[trigger] maps_of(ms1)[i].contains_key(k);
            assert(maps_of(ms2)[i].contains_key(k));
        }
        if exists|i: int| 0 <= i < maps_of(ms2).len() && #[trigger] maps_of(ms2)[i].contains_key(k) {
            let i = choose|i: int| 0 <= i < maps_of(ms2).len() && #[trigger] maps_of(ms2)[i].contains_key(k);
            assert(maps_of(ms1)[i].contains_key(k));
        }
    }
    assert(merged(maps_of(ms1)).dom() =~= merged(maps_of(ms2)).dom());
    if forall|i: int| 0 <= i < sources.len() ==> load_is_fixed(#[trigger] sources[i]) {
        assert(maps_of(ms1) =~= maps_of(ms2));
    }
}

/// Merging two lists of sources one after the other: when each list merges,
/// so does the whole, to a map with the keys of both; when every source is
/// fixed, that map is the first merge overridden by the second.
pub proof fn lemma_merge_concat_sources(
    p: Seq<ConfigSource>,
    q: Seq<ConfigSource>,
    a: ConfigMap,
    b: ConfigMap,
    r: Result<ConfigMap, ConfixError>,
)
    requires
        merge_spec(p, Ok(a)),
        merge_spec(q, Ok(b)),
        merge_spec(p + q, r),
    ensures
        r is Ok,
        r->Ok_0@.dom() == a@.dom().union(b@.dom()),
        (forall|i: int| 0 <= i < p.len() + q.len() ==> load_is_fixed(#[trigger] (p + q)[i]))
            ==> r->Ok_0@ == a@.union_prefer_right(b@),
{
    let ms1 = choose|ms: Seq<ConfigMap>| #[trigger] merge_of(p, ms, a@);
    let ms2 = choose|ms: Seq<ConfigMap>| #[trigger] merge_of(q, ms, b@);
    let ms = ms1 + ms2;
    let pq = p + q;
    assert forall|i: int| 0 <= i < ms.len() implies load_spec(pq[i], Ok(#[trigger] ms[i])) by {
        if i < ms1.len() {
            assert(pq[i] == p[i] && ms[i] == ms1[i]);
        } else {
            assert(pq[i] == q[i - ms1.len()] && ms[i] == ms2[i - ms1.len()]);
        }
    }
    assert(maps_of(ms) =~= maps_of(ms1) + maps_of(ms2));
    lemma_merged_concat(maps_of(ms1), maps_of(ms2));
    match r {
        Ok(c) => {
            let ms3 = choose|m: Seq<ConfigMap>| #[trigger] merge_of(pq, m, c@);
            lemma_merges_agree(pq, ms3, ms);
            assert(a@.union_prefer_right(b@).dom() =~= a@.dom().union(b@.dom()));
        },
        Err(e) => {
            let ms3 = choose|m: Seq<ConfigMap>| #[trigger] first_failure(pq, m, e);
            let j = ms3.len() as int;
            lemma_load_outcomes_agree(pq[j], Err(e), Ok(ms[j]));
        },
    }
}

/// A command ready to be spawned: the program, its arguments, and the
/// variables to lay over the inherited environment.
#[derive(Debug)]
pub struct RunPlan {
    pub program: String,
    pub args: Vec<String>,
    pub env: ConfigMap,
}

/// Splits a command line into program and arguments. An empty command line is
/// refused before anything is spawned.
pub fn plan_command(env: ConfigMap, cmd_args: &Vec<String>) -> (r: Result<RunPlan, ConfixError>)
    ensures
        cmd_args@.len() == 0 <==> r is Err,
        match r {
            Ok(p) => {
                &&& p.program == cmd_args@[0]
                &&& p.args@ == cmd_args@.subrange(1, cmd_args@.len() as int)
                &&& p.env == env
            },
            Err(e) => match e {
                ConfixError::CommandFailed(m) => m@ == "No command provided."@,
                _ => false,
            },
        },
{
    if cmd_args.len() == 0 {
        return Err(ConfixError::CommandFailed("No command provided.".to_owned()));
    }
    let program = cmd_args[0].clone();
    let mut args: Vec<String> = Vec::new();
    let mut i: usize = 1;
    while i < cmd_args.len()
        invariant
            1 <= i <= cmd_args@.len(),
            args@ == cmd_args@.subrange(1, i as int),
        decreases cmd_args@.len() - i,
    {
        args.push(cmd_args[i].clone());
        assert(cmd_args@.subrange(1, i + 1) == cmd_args@.subrange(1, i as int).push(cmd_args@[i as int]));
        i = i + 1;
    }
    Ok(RunPlan { program, args, env })
}

/// The error for a command that could not be spawned, naming the program and
/// the system's reason.
pub fn spawn_failure(program: &str, cause: &str) -> (r: ConfixError)
    ensures
        match r {
            ConfixError::CommandFailed(m) => m@ == "Failed to spawn command '"@ + program@ + "': "@ + cause@,
            _ => false,
        },
{
    let mut m = "Failed to spawn command '".to_owned();
    m.append(program);
    m.append("': ");
    m.append(cause);
    ConfixError::CommandFailed(m)
}

/// The error for a spawned command that could not be waited on.
pub fn wait_failure(program: &str, cause: &str) -> (r: ConfixError)
    ensures
        match r {
            ConfixError::CommandFailed(m) => m@ == "Command '"@ + program@ + "' failed to run: "@ + cause@,
            _ => false,
        },
{
    let mut m = "Command '".to_owned();
    m.append(program);
    m.append("' failed to run: ");
    m.append(cause);
    ConfixError::CommandFailed(m)
}

/// The exit code of a finished child; a child with no code (ended by a
/// signal) counts as 0.
pub fn exit_code_of(code: Option<i32>) -> (r: i32)
    ensures
        r == match code {
            Some(c) => c,
            None => 0,
        },
{
    match code {
        Some(c) => c,
        None => 0,
    }
}

/// The tool's own exit code: the child's code when the command ran, else 1.
pub fn tool_exit_code(outcome: &Result<i32, ConfixError>) -> (r: i32)
    ensures
        r == match outcome {
            Ok(c) => *c,
            Err(_) => 1,
        },
{
    match outcome {
        Ok(c) => *c,
        Err(_) => 1,
    }
}

} // verus!
