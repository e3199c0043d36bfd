//! The data sources a render pass draws its context from: the process
//! environment, YAML variable files, and CSV tables. Each source turns
//! plain input (a variable listing, file text, file bytes) into a context;
//! the render orchestration folds those contexts together in registration
//! order.

use vstd::prelude::*;
use vstd::string::*;
use crate::context::Context;
use crate::error::Error;
use crate::node::{lemma_view_node_pairs, view_node_pairs, Node, NodeView};

verus! {

broadcast use vstd::std_specs::vec::group_vec_axioms, vstd::seq::group_seq_axioms;

/// Whether a YAML file's whole top-level mapping is promoted (`Direct`) or
/// only the sub-mapping under the reserved `variables` key (`Legacy`).
#[derive(Clone, Copy, Debug, PartialEq, Eq, Structural)]
pub enum VariableMode {
    Direct,
    Legacy,
}

/// A registered origin of context entries.
pub enum DataSource {
    Environment { prefix: String },
    YamlFile { path: String, prefix: String, mode: VariableMode },
    CsvFile { path: String, prefix: String },
}

/// The plain input handed to a source for one render pass: the environment
/// listing for an environment source, file contents for a file source, or
/// nothing when the file could not be read.
pub enum SourceInput {
    Unavailable,
    EnvVars(Vec<(String, String)>),
    FileText(String),
    FileBytes(Vec<u8>),
}

/// The context an environment listing yields: every variable under
/// prefix + name, as scalar text, later entries overriding earlier ones.
pub open spec fn env_map(prefix: Seq<char>, vars: Seq<(String, String)>) -> Map<
    Seq<char>,
    NodeView,
>
    decreases vars.len(),
{
    if vars.len() == 0 {
        Map::empty()
    } else {
        env_map(prefix, vars.drop_last()).insert(
            prefix + vars.last().0@,
            NodeView::Scalar(vars.last().1@),
        )
    }
}

/// Load the environment source: wrap every listed variable as scalar text
/// under prefix + name. Never fails; an empty listing yields an empty
/// context.
pub fn env_context(prefix: &str, vars: &Vec<(String, String)>) -> (c: Context)
    ensures
        c.wf(),
        c@ == env_map(prefix@, vars@),
{
    let mut c = Context::new();
    let n = vars.len();
    let mut i: usize = 0;
    proof {
        assert(vars@.take(0) =~= Seq::<(String, String)>::empty());
    }
    while i < n
        invariant
            n == vars@.len(),
            i <= n,
            c.wf(),
            c@ == env_map(prefix@, vars@.take(i as int)),
        decreases n - i,
    {
        let key = crate::strutil::concat2(prefix, vars[i].0.as_str());
        c.add(key, Node::Scalar(vars[i].1.clone()));
        proof {
            assert(vars@.take(i + 1 as int).drop_last() =~= vars@.take(i as int));
            assert(vars@.take(i + 1 as int).last() == vars@[i as int]);
        }
        i += 1;
    }
    proof {
        assert(vars@.take(n as int) =~= vars@);
    }
    c
}

/// A variable whose name occurs nowhere later in the listing ends up in
/// the environment context under prefix + name with exactly its value.
pub proof fn lemma_env_map_lookup(prefix: Seq<char>, vars: Seq<(String, String)>, i: int)
    requires
        0 <= i < vars.len(),
        forall|j: int| i < j < vars.len() ==> (#[trigger] vars[j]).0@ != vars[i].0@,
    ensures
        env_map(prefix, vars).contains_key(prefix + vars[i].0@),
        env_map(prefix, vars)[prefix + vars[i].0@] == NodeView::Scalar(vars[i].1@),
    decreases vars.len(),
{
    if i == vars.len() - 1 {
    } else {
        assert(vars.drop_last()[i] == vars[i]);
        assert(forall|j: int|
            i < j < vars.len() - 1 ==> (#[trigger] vars.drop_last()[j]).0@ == vars[j].0@);
        lemma_env_map_lookup(prefix, vars.drop_last(), i);
        assert(vars[vars.len() - 1].0@ != vars[i].0@);
        assert(prefix + vars.last().0@ != prefix + vars[i].0@) by {
            if prefix + vars.last().0@ == prefix + vars[i].0@ {
                assert((prefix + vars.last().0@).skip(prefix.len() as int) =~= vars.last().0@);
                assert((prefix + vars[i].0@).skip(prefix.len() as int) =~= vars[i].0@);
            }
        }
    }
}

/// The context a top-level mapping yields in direct mode: every entry with
/// a scalar key is promoted under prefix + key; entries with non-scalar
/// keys are skipped; later entries override earlier ones.
pub open spec fn promote_pairs(prefix: Seq<char>, pairs: Seq<(NodeView, NodeView)>) -> Map<
    Seq<char>,
    NodeView,
>
    decreases pairs.len(),
{
    if pairs.len() == 0 {
        Map::empty()
    } else {
        let m = promote_pairs(prefix, pairs.drop_last());
        match pairs.last().0 {
            NodeView::Scalar(k) => m.insert(prefix + k, pairs.last().1),
            _ => m,
        }
    }
}

/// The value under the first entry of `pairs` whose key is the scalar
/// `key`, if any.
pub open spec fn find_key(pairs: Seq<(NodeView, NodeView)>, key: Seq<char>) -> Option<NodeView>
    decreases pairs.len(),
{
    if pairs.len() == 0 {
        None
    } else if pairs[0].0 == NodeView::Scalar(key) {
        Some(pairs[0].1)
    } else {
        find_key(pairs.skip(1), key)
    }
}

proof fn lemma_find_key_at(pairs: Seq<(NodeView, NodeView)>, key: Seq<char>, i: int)
    requires
        0 <= i < pairs.len(),
        pairs[i].0 == NodeView::Scalar(key),
        forall|j: int| 0 <= j < i ==> (#[trigger] pairs[j]).0 != NodeView::Scalar(key),
    ensures
        find_key(pairs, key) == Some(pairs[i].1),
    decreases i,
{
    if i > 0 {
        assert(forall|j: int| 0 <= j < pairs.len() - 1 ==> pairs.skip(1)[j] == pairs[j + 1]);
        lemma_find_key_at(pairs.skip(1), key, i - 1);
    }
}

proof fn lemma_find_key_none(pairs: Seq<(NodeView, NodeView)>, key: Seq<char>)
    requires
        forall|j: int| 0 <= j < pairs.len() ==> (#[trigger] pairs[j]).0 != NodeView::Scalar(key),
    ensures
        find_key(pairs, key) is None,
    decreases pairs.len(),
{
    if pairs.len() > 0 {
        assert(forall|j: int| 0 <= j < pairs.len() - 1 ==> pairs.skip(1)[j] == pairs[j + 1]);
        lemma_find_key_none(pairs.skip(1), key);
    }
}

/// The context a parsed YAML document yields: nothing unless the root is
/// a mapping; in direct mode the whole root is promoted; in legacy mode
/// only the mapping found under the reserved `variables` key is, and a
/// missing or non-mapping `variables` entry yields nothing.
pub open spec fn yaml_promotion(mode: VariableMode, prefix: Seq<char>, v: NodeView) -> Map<
    Seq<char>,
    NodeView,
> {
    match v {
        NodeView::Mapping(pairs) => match mode {
            VariableMode::Direct => promote_pairs(prefix, pairs),
            VariableMode::Legacy => match find_key(pairs, "variables"@) {
                Some(sub) => match sub {
                    NodeView::Mapping(subpairs) => promote_pairs(prefix, subpairs),
                    _ => Map::empty(),
                },
                None => Map::empty(),
            },
        },
        _ => Map::empty(),
    }
}

/// Promote every scalar-keyed entry of a mapping's pairs, in order.
fn promote_entries(prefix: &str, pairs: Vec<(Node, Node)>) -> (c: Context)
    ensures
        c.wf(),
        c@ == promote_pairs(prefix@, view_node_pairs(pairs@)),
{
    let ghost os = pairs@;
    let ghost vp = view_node_pairs(os);
    proof {
        lemma_view_node_pairs(os);
    }
    let mut rest = pairs;
    let n0 = rest.len();
    let mut c = Context::new();
    let mut i: usize = 0;
    proof {
        assert(vp.take(0) =~= Seq::<(NodeView, NodeView)>::empty());
    }
    while rest.len() > 0
        invariant
            i <= n0,
            os.len() == n0,
            vp == view_node_pairs(os),
            vp.len() == n0,
            forall|j: int| 0 <= j < n0 ==> vp[j] == (#[trigger] os[j].0@, os[j].1@),
            rest@ =~= os.skip(i as int),
            c.wf(),
            c@ == promote_pairs(prefix@, vp.take(i as int)),
        decreases rest@.len(),
    {
        let e = rest.remove(0);
        proof {
            assert(e == os[i as int]);
            assert(vp.take(i + 1 as int).drop_last() =~= vp.take(i as int));
            assert(vp.take(i + 1 as int).last() == vp[i as int]);
        }
        let (k, v) = e;
        match k {
            Node::Scalar(ks) => {
                let key = crate::strutil::concat2(prefix, ks.as_str());
                proof {
                    assert(os[i as int].0@ == NodeView::Scalar(ks@));
                }
                c.add(key, v);
            },
            _ => {},
        }
        i += 1;
    }
    proof {
        assert(vp.take(n0 as int) =~= vp);
    }
    c
}

/// Index of the first entry keyed by the given scalar, if any.
pub fn find_scalar_entry(pairs: &Vec<(Node, Node)>, key: &String) -> (r: Option<usize>)
    ensures
        match r {
            Some(i) => i < pairs@.len() && find_key(view_node_pairs(pairs@), key@) == Some(
                view_node_pairs(pairs@)[i as int].1,
            ) && view_node_pairs(pairs@)[i as int].1 == pairs@[i as int].1@,
            None => find_key(view_node_pairs(pairs@), key@) is None,
        },
{
    let ghost vp = view_node_pairs(pairs@);
    proof {
        lemma_view_node_pairs(pairs@);
    }
    let n = pairs.len();
    let mut i: usize = 0;
    while i < n
        invariant
            n == pairs@.len(),
            i <= n,
            vp == view_node_pairs(pairs@),
            vp.len() == n,
            forall|j: int| 0 <= j < n ==> vp[j] == (#[trigger] pairs@[j].0@, pairs@[j].1@),
            forall|j: int| 0 <= j < i ==> (#[trigger] vp[j]).0 != NodeView::Scalar(key@),
        decreases n - i,
    {
        let mut hit = false;
        match &pairs[i].0 {
            Node::Scalar(ks) => {
                if *ks == *key {
                    hit = true;
                    proof {
                        assert(pairs@[i as int].0@ == NodeView::Scalar(key@));
                    }
                }
            },
            _ => {},
        }
        if hit {
            proof {
                lemma_find_key_at(vp, key@, i as int);
            }
            return Some(i);
        }
        proof {
            assert(vp[i as int].0 != NodeView::Scalar(key@));
        }
        i += 1;
    }
    proof {
        lemma_find_key_none(vp, key@);
    }
    None
}

/// The text under the first entry keyed by the given scalar, when that
/// entry's value is itself a scalar.
pub fn get_scalar(pairs: &Vec<(Node, Node)>, key: &String) -> (r: Option<String>)
    ensures
        match r {
            Some(s) => find_key(view_node_pairs(pairs@), key@) == Some(NodeView::Scalar(s@)),
            None => !(find_key(view_node_pairs(pairs@), key@) matches Some(NodeView::Scalar(_))),
        },
{
    match find_scalar_entry(pairs, key) {
        Some(i) => match &pairs[i].1 {
            Node::Scalar(s) => Some(s.clone()),
            _ => None,
        },
        None => None,
    }
}

/// Load a parsed YAML document as a context: nothing unless the root is a
/// mapping; in direct mode the whole root mapping is promoted under the
/// prefix; in legacy mode only the mapping under the reserved `variables`
/// key is.
pub fn value_context(mode: VariableMode, prefix: &str, v: Node) -> (c: Context)
    ensures
        c.wf(),
        c@ == yaml_promotion(mode, prefix@, v@),
{
    match v {
        Node::Mapping(pairs) => match mode {
            VariableMode::Direct => promote_entries(prefix, pairs),
            VariableMode::Legacy => {
                let mut pairs = pairs;
                let ghost os = pairs@;
                let reserved = String::from_str("variables");
                match find_scalar_entry(&pairs, &reserved) {
                    Some(i) => {
                        let e = pairs.remove(i);
                        proof {
                            lemma_view_node_pairs(os);
                            assert(e == os[i as int]);
                            let ghost oe = os[i as int];
                            assert(view_node_pairs(os)[i as int] == (oe.0@, oe.1@));
                            assert(view_node_pairs(os)[i as int].1 == e.1@);
                        }
                        match e.1 {
                            Node::Mapping(subpairs) => promote_entries(prefix, subpairs),
                            _ => Context::new(),
                        }
                    },
                    None => Context::new(),
                }
            },
        },
        _ => Context::new(),
    }
}

/// The context a YAML file's text yields, or `None` on a parse failure.
pub open spec fn spec_yaml_load(mode: VariableMode, prefix: Seq<char>, text: Seq<char>) -> Option<
    Map<Seq<char>, NodeView>,
> {
    match crate::yamlparse::yaml_of(text) {
        Some(v) => Some(yaml_promotion(mode, prefix, v)),
        None => None,
    }
}

/// Load a YAML file source from its text: parse, then promote.
pub fn yaml_context(mode: VariableMode, prefix: &str, text: &str) -> (r: Result<Context, Error>)
    ensures
        match r {
            Ok(c) => c.wf() && spec_yaml_load(mode, prefix@, text@) == Some(c@),
            Err(e) => spec_yaml_load(mode, prefix@, text@) is None && e == Error::Parse,
        },
{
    match crate::yamlparse::parse_yaml(text) {
        Ok(v) => Ok(value_context(mode, prefix, v)),
        Err(e) => Err(e),
    }
}

/// `d` is an environment source with this prefix.
pub open spec fn is_env_source(d: DataSource, prefix: Seq<char>) -> bool {
    match d {
        DataSource::Environment { prefix: p } => p@ == prefix,
        _ => false,
    }
}

/// `d` is a YAML file source with this path, prefix and mode.
pub open spec fn is_yaml_source(
    d: DataSource,
    path: Seq<char>,
    prefix: Seq<char>,
    mode: VariableMode,
) -> bool {
    match d {
        DataSource::YamlFile { path: pa, prefix: pr, mode: m } => pa@ == path && pr@ == prefix && m
            == mode,
        _ => false,
    }
}

/// `d` is a CSV file source with this path and prefix.
pub open spec fn is_csv_source(d: DataSource, path: Seq<char>, prefix: Seq<char>) -> bool {
    match d {
        DataSource::CsvFile { path: pa, prefix: pr } => pa@ == path && pr@ == prefix,
        _ => false,
    }
}

/// The context one source yields from its input: `None` when the load
/// fails (an unreadable file, a parse failure, or input of the wrong
/// kind for the source).
pub open spec fn spec_load(source: DataSource, input: SourceInput) -> Option<
    Map<Seq<char>, NodeView>,
> {
    match (source, input) {
        (DataSource::Environment { prefix }, SourceInput::EnvVars(vars)) => Some(
            env_map(prefix@, vars@),
        ),
        (DataSource::YamlFile { path: _, prefix, mode }, SourceInput::FileText(text)) =>
            spec_yaml_load(mode, prefix@, text@),
        (DataSource::CsvFile { path, prefix }, SourceInput::FileBytes(data)) => match
            crate::csvparse::csv_table_of(data@) {
            Some(table) => Some(crate::csvsrc::spec_csv_load(path@, prefix@, table)),
            None => None,
        },
        _ => None,
    }
}

/// Load one source from its plain input.
pub fn load_source(source: &DataSource, input: &SourceInput) -> (r: Result<Context, Error>)
    ensures
        match r {
            Ok(c) => c.wf() && spec_load(*source, *input) == Some(c@),
            Err(_) => spec_load(*source, *input) is None,
        },
{
    match (source, input) {
        (DataSource::Environment { prefix }, SourceInput::EnvVars(vars)) => Ok(
            env_context(prefix.as_str(), vars),
        ),
        (DataSource::YamlFile { path: _, prefix, mode }, SourceInput::FileText(text)) =>
            yaml_context(*mode, prefix.as_str(), text.as_str()),
        (DataSource::CsvFile { path, prefix }, SourceInput::FileBytes(data)) => match
            crate::csvparse::parse_csv(data.as_slice()) {
            Ok(table) => Ok(
                crate::csvsrc::csv_context(path.as_str(), prefix.as_str(), &table),
            ),
            Err(e) => Err(e),
        },
        _ => Err(Error::Io),
    }
}

/// The merged context a source list and its inputs yield: each source is
/// loaded in registration order; a failing source is skipped silently; a
/// successful later source overrides earlier ones on key collision.
pub open spec fn spec_merged(sources: Seq<DataSource>, inputs: Seq<SourceInput>) -> Map<
    Seq<char>,
    NodeView,
>
    decreases sources.len(),
{
    if sources.len() == 0 || sources.len() != inputs.len() {
        Map::empty()
    } else {
        let prev = spec_merged(sources.drop_last(), inputs.drop_last());
        match spec_load(sources.last(), inputs.last()) {
            Some(m) => prev.union_prefer_right(m),
            None => prev,
        }
    }
}

/// The precedence law: when the source at position `j` loads successfully
/// and carries the key `k`, and no later source's successful load carries
/// `k`, the merged context holds that source's value for `k`. The fixed
/// registration order therefore gives later-registered sources precedence
/// on collision.
pub proof fn lemma_source_precedence(
    sources: Seq<DataSource>,
    inputs: Seq<SourceInput>,
    j: int,
    k: Seq<char>,
)
    requires
        sources.len() == inputs.len(),
        0 <= j < sources.len(),
        spec_load(sources[j], inputs[j]) is Some,
        spec_load(sources[j], inputs[j])->Some_0.contains_key(k),
        forall|l: int|
            j < l < sources.len() && (#[trigger] spec_load(sources[l], inputs[l])) is Some
                ==> !spec_load(sources[l], inputs[l])->Some_0.contains_key(k),
    ensures
        spec_merged(sources, inputs).contains_key(k),
        spec_merged(sources, inputs)[k] == spec_load(sources[j], inputs[j])->Some_0[k],
    decreases sources.len(),
{
    let n = sources.len();
    if j == n - 1 {
    } else {
        assert(sources.drop_last()[j] == sources[j]);
        assert(inputs.drop_last()[j] == inputs[j]);
        assert(forall|l: int|
            j < l < n - 1 ==> #[trigger] sources.drop_last()[l] == sources[l]
                && inputs.drop_last()[l] == inputs[l]);
        lemma_source_precedence(sources.drop_last(), inputs.drop_last(), j, k);
        assert(spec_load(sources[n - 1], inputs[n - 1]) is Some ==> !spec_load(
            sources[n - 1],
            inputs[n - 1],
        )->Some_0.contains_key(k));
    }
}

/// The environment always wins ties: when the last registered source is
/// the environment and its listing yields the key `k`, the merged context
/// holds the environment's value for `k`, whatever any earlier source
/// (a defaults file among them) contributed under `k`.
pub proof fn lemma_environment_precedence(
    sources: Seq<DataSource>,
    inputs: Seq<SourceInput>,
    prefix: Seq<char>,
    vars: Seq<(String, String)>,
    k: Seq<char>,
)
    requires
        sources.len() == inputs.len(),
        sources.len() > 0,
        is_env_source(sources.last(), prefix),
        (match inputs.last() {
            SourceInput::EnvVars(vs) => vs@ == vars,
            _ => false,
        }),
        env_map(prefix, vars).contains_key(k),
    ensures
        spec_merged(sources, inputs).contains_key(k),
        spec_merged(sources, inputs)[k] == env_map(prefix, vars)[k],
{
    let n = sources.len();
    assert(inputs.last() == inputs[n - 1]);
    assert(spec_load(sources[n - 1], inputs[n - 1]) == Some(env_map(prefix, vars)));
    lemma_source_precedence(sources, inputs, n - 1, k);
}

/// A key that only the local overrides file contributes wins over every
/// earlier source: when the second-to-last registered source is that
/// file, its load succeeds and carries `k`, and the environment listing
/// registered after it does not, the merged context holds the local
/// file's value for `k` — overriding any discovered context or CSV file
/// registered before it.
pub proof fn lemma_local_precedence(
    sources: Seq<DataSource>,
    inputs: Seq<SourceInput>,
    k: Seq<char>,
)
    requires
        sources.len() == inputs.len(),
        sources.len() >= 2,
        spec_load(sources[sources.len() - 2], inputs[sources.len() - 2]) is Some,
        spec_load(sources[sources.len() - 2], inputs[sources.len() - 2])->Some_0.contains_key(k),
        spec_load(sources.last(), inputs.last()) is Some ==> !spec_load(
            sources.last(),
            inputs.last(),
        )->Some_0.contains_key(k),
    ensures
        spec_merged(sources, inputs).contains_key(k),
        spec_merged(sources, inputs)[k] == spec_load(
            sources[sources.len() - 2],
            inputs[sources.len() - 2],
        )->Some_0[k],
{
    let n = sources.len();
    assert(forall|l: int|
        n - 2 < l < n ==> sources[l] == sources.last() && inputs[l] == inputs.last());
    lemma_source_precedence(sources, inputs, n - 2, k);
}

} // verus!
