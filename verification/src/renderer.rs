//! The render orchestrator: it owns the ordered data sources, folds their
//! contexts together per pass, derives each discovered template's output
//! path (guarding against an output that still bears the template
//! extension), and plans multi-part template assembly.

use vstd::prelude::*;
use vstd::string::*;
use crate::context::Context;
use crate::error::Error;
use crate::node::NodeView;
use crate::sources::{is_csv_source, is_env_source, is_yaml_source, spec_merged,
    DataSource, SourceInput, VariableMode};
use crate::strutil::{concat2, dec_value, dir_name, ends_with, file_name, is_digits, join_path,
    path_join, split_path, str_ends_with, str_strip_suffix, strip_suffix};

verus! {

broadcast use vstd::std_specs::vec::group_vec_axioms, vstd::seq::group_seq_axioms;

pub const DEFAULT_PATH: &'static str = "";

pub const DEFAULT_GLOB: &'static str = "**/*";

pub const DEFAULT_TPL_EXTENSION: &'static str = ".dmt.tpl";

pub const DEFAULT_MPTPL_EXTENSION: &'static str = ".dmt.mtpl";

pub const DEFAULT_CTX_EXTENSION: &'static str = ".dmt.ctx";

pub const DEFAULT_CSV_EXTENSION: &'static str = ".dmt.csv";

pub const DEFAULT_ENV_PREFIX: &'static str = "";

pub const DEFAULT_CTX_PREFIX: &'static str = "";

pub const DEFAULT_CSV_PREFIX: &'static str = "";

pub const DEFAULT_LCL_PREFIX: &'static str = "";

pub const DEFAULT_DEF_PREFIX: &'static str = "";

pub const DEFAULT_VAR_FILE: &'static str = "default.yml";

pub const LOCAL_VAR_FILE: &'static str = "local.yml";

/// The search pattern for one kind of file: base directory, then the glob
/// fragment with the extension appended.
pub open spec fn spec_search_path(base: Seq<char>, glob: Seq<char>, ext: Seq<char>) -> Seq<char> {
    path_join(base, glob + ext)
}

/// Join a base directory, a glob fragment and an extension into one
/// search pattern.
pub fn build_search_path(base: &str, glob: &str, ext: &str) -> (r: String)
    ensures
        r@ == spec_search_path(base@, glob@, ext@),
{
    let frag = concat2(glob, ext);
    join_path(base, frag.as_str())
}

/// The output path a template path decides: the template's directory and
/// file name, the extension stripped from the file name, joined back
/// under the base directory.
pub open spec fn spec_output_path(base: Seq<char>, ext: Seq<char>, tpl: Seq<char>) -> Seq<char> {
    let f = file_name(tpl);
    let stripped = if ends_with(f, ext) {
        strip_suffix(f, ext)
    } else {
        f
    };
    path_join(path_join(base, dir_name(tpl)), stripped)
}

/// Derive a template's output path; refuse one that still bears the
/// extension (the extension appeared twice in the name, say): writing to
/// it would clobber a template, so that render pass must fail.
pub fn output_path(base: &str, ext: &str, tpl: &str) -> (r: Result<String, Error>)
    ensures
        match r {
            Ok(p) => p@ == spec_output_path(base@, ext@, tpl@) && !ends_with(p@, ext@),
            Err(e) => e == Error::Config && ends_with(spec_output_path(base@, ext@, tpl@), ext@),
        },
{
    let (dir, file) = split_path(tpl);
    let stripped = if str_ends_with(file.as_str(), ext) {
        str_strip_suffix(file.as_str(), ext)
    } else {
        file
    };
    let out = join_path(join_path(base, dir.as_str()).as_str(), stripped.as_str());
    if str_ends_with(out.as_str(), ext) {
        Err(Error::Config)
    } else {
        Ok(out)
    }
}

/// A multi-part template descriptor: a preamble fragment, a glob locating
/// the constituent fragments, a postfix fragment, and the indent (spaces
/// prefixed to fragment lines).
#[derive(Debug, PartialEq, Eq)]
pub struct MultipartTemplate {
    pub preamble: String,
    pub glob: String,
    pub postfix: String,
    pub indent: u8,
}

/// What a parsed descriptor document must hold: a mapping whose
/// `preamble`, `glob` and `postfix` entries are scalars and whose
/// `indent` entry is a scalar of decimal digits fitting in a byte.
pub open spec fn spec_multipart(v: NodeView) -> Option<(Seq<char>, Seq<char>, Seq<char>, nat)> {
    match v {
        NodeView::Mapping(pairs) => {
            let pre = crate::sources::find_key(pairs, "preamble"@);
            let g = crate::sources::find_key(pairs, "glob"@);
            let post = crate::sources::find_key(pairs, "postfix"@);
            let ind = crate::sources::find_key(pairs, "indent"@);
            if pre matches Some(NodeView::Scalar(p)) && g matches Some(NodeView::Scalar(gg)) && post
                matches Some(NodeView::Scalar(po)) && ind matches Some(NodeView::Scalar(id))
                && is_digits(id) && dec_value(id) <= 255 {
                Some(
                    (
                        pre->Some_0->Scalar_0,
                        g->Some_0->Scalar_0,
                        post->Some_0->Scalar_0,
                        dec_value(ind->Some_0->Scalar_0),
                    ),
                )
            } else {
                None
            }
        },
        _ => None,
    }
}

/// The renderer's planned action for one discovered template: render this
/// template path against the merged context and write to this output path.
pub type RenderPlan = Vec<(String, String)>;

/// The planned assembly of one multi-part template.
pub struct MultipartPlan {
    pub descriptor_path: String,
    pub output_path: String,
    pub fragment_pattern: String,
    pub preamble: String,
    pub postfix: String,
    pub indent: u8,
}

/// The template renderer: the ordered data sources, the context they
/// merged to last, and the fixed path configuration.
pub struct TemplateRenderer {
    pub mode: VariableMode,
    pub context: Context,
    pub target_tpl_glob: String,
    pub base_path: String,
    pub target_extension: String,
    pub target_mp_extension: String,
    pub data_sources: Vec<DataSource>,
}

impl TemplateRenderer {
    /// The renderer's invariant: its context is well formed.
    pub open spec fn wf(&self) -> bool {
        self.context.wf()
    }

    /// A renderer over the given configuration, with no sources yet.
    pub fn new(base_path: &str, target_glob: &str, target_extension: &str, target_mp_extension:
        &str) -> (r: TemplateRenderer)
        ensures
            r.wf(),
            r.mode == VariableMode::Direct,
            r.context@ == Map::<Seq<char>, NodeView>::empty(),
            r.base_path@ == base_path@,
            r.target_tpl_glob@ == target_glob@,
            r.target_extension@ == target_extension@,
            r.target_mp_extension@ == target_mp_extension@,
            r.data_sources@.len() == 0,
    {
        TemplateRenderer {
            mode: VariableMode::Direct,
            context: Context::new(),
            target_tpl_glob: String::from_str(target_glob),
            base_path: String::from_str(base_path),
            target_extension: String::from_str(target_extension),
            target_mp_extension: String::from_str(target_mp_extension),
            data_sources: Vec::new(),
        }
    }

    /// A renderer over the default configuration: the working directory,
    /// the recursive glob, and the fixed template extensions.
    pub fn default() -> (r: TemplateRenderer)
        ensures
            r.wf(),
            r.mode == VariableMode::Direct,
            r.context@ == Map::<Seq<char>, NodeView>::empty(),
            r.base_path@ == DEFAULT_PATH@,
            r.target_tpl_glob@ == DEFAULT_GLOB@,
            r.target_extension@ == DEFAULT_TPL_EXTENSION@,
            r.target_mp_extension@ == DEFAULT_MPTPL_EXTENSION@,
            r.data_sources@.len() == 0,
    {
        TemplateRenderer::new(
            DEFAULT_PATH,
            DEFAULT_GLOB,
            DEFAULT_TPL_EXTENSION,
            DEFAULT_MPTPL_EXTENSION,
        )
    }

    /// Switch to the legacy variable mode, which also retargets the
    /// legacy template extension.
    pub fn set_mode(&mut self, mode: VariableMode)
        ensures
            final(self).mode == mode,
            final(self).target_extension@ == ".orig.tpl"@,
            final(self).context == old(self).context,
            final(self).base_path == old(self).base_path,
            final(self).target_tpl_glob == old(self).target_tpl_glob,
            final(self).target_mp_extension == old(self).target_mp_extension,
            final(self).data_sources == old(self).data_sources,
    {
        self.target_extension = String::from_str(".orig.tpl");
        self.mode = mode;
    }

    /// Register one data source after the already registered ones.
    pub fn add_datasource(&mut self, source: DataSource)
        ensures
            final(self).data_sources@ == old(self).data_sources@.push(source),
            final(self).mode == old(self).mode,
            final(self).context == old(self).context,
            final(self).base_path == old(self).base_path,
            final(self).target_tpl_glob == old(self).target_tpl_glob,
            final(self).target_extension == old(self).target_extension,
            final(self).target_mp_extension == old(self).target_mp_extension,
    {
        self.data_sources.push(source);
    }

    /// Register the environment source.
    pub fn add_env_datasource(&mut self, prefix: &str)
        ensures
            final(self).data_sources@.len() == old(self).data_sources@.len() + 1,
            final(self).data_sources@ == old(self).data_sources@.push(
                final(self).data_sources@.last(),
            ),
            is_env_source(final(self).data_sources@.last(), prefix@),
            final(self).mode == old(self).mode,
            final(self).context == old(self).context,
            final(self).base_path == old(self).base_path,
            final(self).target_tpl_glob == old(self).target_tpl_glob,
            final(self).target_extension == old(self).target_extension,
            final(self).target_mp_extension == old(self).target_mp_extension,
    {
        self.add_datasource(DataSource::Environment { prefix: String::from_str(prefix) });
    }

    /// Register a YAML file source for the given file under the base
    /// directory, in the current mode.
    pub fn add_yml_datasource(&mut self, prefix: &str, target: &str)
        ensures
            final(self).data_sources@.len() == old(self).data_sources@.len() + 1,
            final(self).data_sources@ == old(self).data_sources@.push(
                final(self).data_sources@.last(),
            ),
            is_yaml_source(
                final(self).data_sources@.last(),
                path_join(old(self).base_path@, target@),
                prefix@,
                old(self).mode,
            ),
            final(self).mode == old(self).mode,
            final(self).context == old(self).context,
            final(self).base_path == old(self).base_path,
            final(self).target_tpl_glob == old(self).target_tpl_glob,
            final(self).target_extension == old(self).target_extension,
            final(self).target_mp_extension == old(self).target_mp_extension,
    {
        let path = join_path(self.base_path.as_str(), target);
        let mode = self.mode;
        self.add_datasource(
            DataSource::YamlFile { path, prefix: String::from_str(prefix), mode },
        );
    }

    /// Register the local overrides file.
    pub fn add_lcl_datasource(&mut self, prefix: &str)
        ensures
            final(self).data_sources@.len() == old(self).data_sources@.len() + 1,
            final(self).data_sources@ == old(self).data_sources@.push(
                final(self).data_sources@.last(),
            ),
            is_yaml_source(
                final(self).data_sources@.last(),
                path_join(old(self).base_path@, LOCAL_VAR_FILE@),
                prefix@,
                old(self).mode,
            ),
            final(self).mode == old(self).mode,
            final(self).context == old(self).context,
            final(self).base_path == old(self).base_path,
            final(self).target_tpl_glob == old(self).target_tpl_glob,
            final(self).target_extension == old(self).target_extension,
            final(self).target_mp_extension == old(self).target_mp_extension,
    {
        self.add_yml_datasource(prefix, LOCAL_VAR_FILE);
    }

    /// Register the default variables file.
    pub fn add_def_datasource(&mut self, prefix: &str)
        ensures
            final(self).data_sources@.len() == old(self).data_sources@.len() + 1,
            final(self).data_sources@ == old(self).data_sources@.push(
                final(self).data_sources@.last(),
            ),
            is_yaml_source(
                final(self).data_sources@.last(),
                path_join(old(self).base_path@, DEFAULT_VAR_FILE@),
                prefix@,
                old(self).mode,
            ),
            final(self).mode == old(self).mode,
            final(self).context == old(self).context,
            final(self).base_path == old(self).base_path,
            final(self).target_tpl_glob == old(self).target_tpl_glob,
            final(self).target_extension == old(self).target_extension,
            final(self).target_mp_extension == old(self).target_mp_extension,
    {
        self.add_yml_datasource(prefix, DEFAULT_VAR_FILE);
    }

    /// Register a YAML file source for each discovered context file, in
    /// discovery order.
    pub fn add_ctx_datasource(&mut self, prefix: &str, paths: &Vec<String>)
        ensures
            final(self).data_sources@.len() == old(self).data_sources@.len() + paths@.len(),
            forall|j: int|
                0 <= j < old(self).data_sources@.len() ==> final(self).data_sources@[j] == old(
                    self,
                ).data_sources@[j],
            forall|j: int|
                0 <= j < paths@.len() ==> is_yaml_source(
                    #[trigger] final(self).data_sources@[old(self).data_sources@.len() + j],
                    paths@[j]@,
                    prefix@,
                    old(self).mode,
                ),
            final(self).mode == old(self).mode,
            final(self).context == old(self).context,
            final(self).base_path == old(self).base_path,
            final(self).target_tpl_glob == old(self).target_tpl_glob,
            final(self).target_extension == old(self).target_extension,
            final(self).target_mp_extension == old(self).target_mp_extension,
    {
        let n = paths.len();
        let mut i: usize = 0;
        while i < n
            invariant
                n == paths@.len(),
                i <= n,
                self.data_sources@.len() == old(self).data_sources@.len() + i,
                forall|j: int|
                    0 <= j < old(self).data_sources@.len() ==> self.data_sources@[j] == old(
                        self,
                    ).data_sources@[j],
                forall|j: int|
                    0 <= j < i ==> is_yaml_source(
                        #[trigger] self.data_sources@[old(self).data_sources@.len() + j],
                        paths@[j]@,
                        prefix@,
                        old(self).mode,
                    ),
                self.mode == old(self).mode,
                self.context == old(self).context,
                self.base_path == old(self).base_path,
                self.target_tpl_glob == old(self).target_tpl_glob,
                self.target_extension == old(self).target_extension,
                self.target_mp_extension == old(self).target_mp_extension,
            decreases n - i,
        {
            let path = paths[i].clone();
            let mode = self.mode;
            self.add_datasource(
                DataSource::YamlFile { path, prefix: String::from_str(prefix), mode },
            );
            i += 1;
        }
    }

    /// Register a CSV file source for each discovered CSV file, in
    /// discovery order.
    pub fn add_csv_datasource(&mut self, prefix: &str, paths: &Vec<String>)
        ensures
            final(self).data_sources@.len() == old(self).data_sources@.len() + paths@.len(),
            forall|j: int|
                0 <= j < old(self).data_sources@.len() ==> final(self).data_sources@[j] == old(
                    self,
                ).data_sources@[j],
            forall|j: int|
                0 <= j < paths@.len() ==> is_csv_source(
                    #[trigger] final(self).data_sources@[old(self).data_sources@.len() + j],
                    paths@[j]@,
                    prefix@,
                ),
            final(self).mode == old(self).mode,
            final(self).context == old(self).context,
            final(self).base_path == old(self).base_path,
            final(self).target_tpl_glob == old(self).target_tpl_glob,
            final(self).target_extension == old(self).target_extension,
            final(self).target_mp_extension == old(self).target_mp_extension,
    {
        let n = paths.len();
        let mut i: usize = 0;
        while i < n
            invariant
                n == paths@.len(),
                i <= n,
                self.data_sources@.len() == old(self).data_sources@.len() + i,
                forall|j: int|
                    0 <= j < old(self).data_sources@.len() ==> self.data_sources@[j] == old(
                        self,
                    ).data_sources@[j],
                forall|j: int|
                    0 <= j < i ==> is_csv_source(
                        #[trigger] self.data_sources@[old(self).data_sources@.len() + j],
                        paths@[j]@,
                        prefix@,
                    ),
                self.mode == old(self).mode,
                self.context == old(self).context,
                self.base_path == old(self).base_path,
                self.target_tpl_glob == old(self).target_tpl_glob,
                self.target_extension == old(self).target_extension,
                self.target_mp_extension == old(self).target_mp_extension,
            decreases n - i,
        {
            let path = paths[i].clone();
            self.add_datasource(DataSource::CsvFile { path, prefix: String::from_str(prefix) });
            i += 1;
        }
    }

    /// Register every standard source, in the fixed precedence order
    /// (lowest first): the default variables file, the discovered context
    /// files, the discovered CSV files, the local overrides file, and the
    /// environment. The environment is registered last and therefore
    /// always wins ties; the default file always loses them.
    pub fn add_all_datasources(&mut self, ctx_paths: &Vec<String>, csv_paths: &Vec<String>)
        ensures
            final(self).data_sources@.len() == old(self).data_sources@.len() + 3 + ctx_paths@.len()
                + csv_paths@.len(),
            is_yaml_source(
                final(self).data_sources@[old(self).data_sources@.len() as int],
                path_join(old(self).base_path@, DEFAULT_VAR_FILE@),
                DEFAULT_DEF_PREFIX@,
                old(self).mode,
            ),
            forall|j: int|
                0 <= j < ctx_paths@.len() ==> is_yaml_source(
                    #[trigger] final(self).data_sources@[old(self).data_sources@.len() + 1 + j],
                    ctx_paths@[j]@,
                    DEFAULT_CTX_PREFIX@,
                    old(self).mode,
                ),
            forall|j: int|
                0 <= j < csv_paths@.len() ==> is_csv_source(
                    #[trigger] final(self).data_sources@[old(self).data_sources@.len() + 1
                        + ctx_paths@.len() + j],
                    csv_paths@[j]@,
                    DEFAULT_CSV_PREFIX@,
                ),
            is_yaml_source(
                final(self).data_sources@[final(self).data_sources@.len() - 2],
                path_join(old(self).base_path@, LOCAL_VAR_FILE@),
                DEFAULT_LCL_PREFIX@,
                old(self).mode,
            ),
            is_env_source(final(self).data_sources@.last(), DEFAULT_ENV_PREFIX@),
            final(self).mode == old(self).mode,
            final(self).context == old(self).context,
            final(self).base_path == old(self).base_path,
            final(self).target_tpl_glob == old(self).target_tpl_glob,
            final(self).target_extension == old(self).target_extension,
            final(self).target_mp_extension == old(self).target_mp_extension,
    {
        self.add_def_datasource(DEFAULT_DEF_PREFIX);
        self.add_ctx_datasource(DEFAULT_CTX_PREFIX, ctx_paths);
        self.add_csv_datasource(DEFAULT_CSV_PREFIX, csv_paths);
        self.add_lcl_datasource(DEFAULT_LCL_PREFIX);
        self.add_env_datasource(DEFAULT_ENV_PREFIX);
    }

    /// Rebuild the merged context from one fresh, empty context: each
    /// registered source is loaded from its input in registration order;
    /// a successful load is folded in, overriding earlier sources on key
    /// collision; a failing source is skipped silently and never aborts
    /// the pass.
    pub fn refresh_contexts(&mut self, inputs: &Vec<SourceInput>)
        requires
            inputs@.len() == old(self).data_sources@.len(),
        ensures
            final(self).wf(),
            final(self).context@ == spec_merged(old(self).data_sources@, inputs@),
            final(self).mode == old(self).mode,
            final(self).base_path == old(self).base_path,
            final(self).target_tpl_glob == old(self).target_tpl_glob,
            final(self).target_extension == old(self).target_extension,
            final(self).target_mp_extension == old(self).target_mp_extension,
            final(self).data_sources == old(self).data_sources,
    {
        let ghost ds = self.data_sources@;
        let n = self.data_sources.len();
        let mut c = Context::new();
        let mut i: usize = 0;
        proof {
            assert(ds.take(0) =~= Seq::<DataSource>::empty());
            assert(inputs@.take(0) =~= Seq::<SourceInput>::empty());
        }
        while i < n
            invariant
                n == self.data_sources@.len(),
                inputs@.len() == n,
                ds == self.data_sources@,
                *self == *old(self),
                i <= n,
                c.wf(),
                c@ == spec_merged(ds.take(i as int), inputs@.take(i as int)),
            decreases n - i,
        {
            proof {
                assert(ds.take(i + 1 as int).drop_last() =~= ds.take(i as int));
                assert(inputs@.take(i + 1 as int).drop_last() =~= inputs@.take(i as int));
                assert(ds.take(i + 1 as int).last() == ds[i as int]);
                assert(inputs@.take(i + 1 as int).last() == inputs@[i as int]);
            }
            match crate::sources::load_source(&self.data_sources[i], &inputs[i]) {
                Ok(ci) => {
                    c.extend(ci);
                },
                Err(_) => {},
            }
            i += 1;
        }
        proof {
            assert(ds.take(n as int) =~= ds);
            assert(inputs@.take(n as int) =~= inputs@);
        }
        self.context = c;
    }

    /// One render pass over the discovered templates: refresh the merged
    /// context, then map every template path to its derived output path.
    /// The pass fails with the configuration error — before anything
    /// would be written — exactly when some derived output path still
    /// bears the template extension. On success the plan pairs each
    /// template path, in discovery order, with its output path; the
    /// caller renders each pair against the merged context and writes
    /// the result.
    pub fn render_default(&mut self, inputs: &Vec<SourceInput>, template_paths: &Vec<String>) -> (r:
        Result<RenderPlan, Error>)
        requires
            inputs@.len() == old(self).data_sources@.len(),
        ensures
            final(self).wf(),
            final(self).context@ == spec_merged(old(self).data_sources@, inputs@),
            final(self).mode == old(self).mode,
            final(self).base_path == old(self).base_path,
            final(self).target_tpl_glob == old(self).target_tpl_glob,
            final(self).target_extension == old(self).target_extension,
            final(self).target_mp_extension == old(self).target_mp_extension,
            final(self).data_sources == old(self).data_sources,
            match r {
                Ok(plan) => plan@.len() == template_paths@.len() && forall|i: int|
                    0 <= i < plan@.len() ==> (#[trigger] plan@[i]).0@ == template_paths@[i]@
                        && plan@[i].1@ == spec_output_path(
                        old(self).base_path@,
                        old(self).target_extension@,
                        template_paths@[i]@,
                    ) && !ends_with(plan@[i].1@, old(self).target_extension@),
                Err(e) => e == Error::Config && exists|i: int|
                    0 <= i < template_paths@.len() && ends_with(
                        spec_output_path(
                            old(self).base_path@,
                            old(self).target_extension@,
                            (#[trigger] template_paths@[i])@,
                        ),
                        old(self).target_extension@,
                    ),
            },
    {
        self.refresh_contexts(inputs);
        let base = self.base_path.clone();
        let ext = self.target_extension.clone();
        let n = template_paths.len();
        let mut plan: RenderPlan = Vec::new();
        let mut i: usize = 0;
        while i < n
            invariant
                self.wf(),
                self.context@ == spec_merged(old(self).data_sources@, inputs@),
                self.mode == old(self).mode,
                self.base_path == old(self).base_path,
                self.target_tpl_glob == old(self).target_tpl_glob,
                self.target_extension == old(self).target_extension,
                self.target_mp_extension == old(self).target_mp_extension,
                self.data_sources == old(self).data_sources,
                n == template_paths@.len(),
                i <= n,
                base@ == old(self).base_path@,
                ext@ == old(self).target_extension@,
                plan@.len() == i,
                forall|j: int|
                    0 <= j < i ==> (#[trigger] plan@[j]).0@ == template_paths@[j]@ && plan@[j].1@
                        == spec_output_path(
                        old(self).base_path@,
                        old(self).target_extension@,
                        template_paths@[j]@,
                    ) && !ends_with(plan@[j].1@, old(self).target_extension@),
            decreases n - i,
        {
            match output_path(base.as_str(), ext.as_str(), template_paths[i].as_str()) {
                Ok(out) => {
                    plan.push((template_paths[i].clone(), out));
                },
                Err(e) => {
                    return Err(e);
                },
            }
            i += 1;
        }
        Ok(plan)
    }

    /// One pass over the discovered multi-part descriptors: refresh the
    /// merged context, parse each descriptor, and plan its assembly. A
    /// malformed descriptor is fatal (the parse error); so is a derived
    /// output path that still bears the multi-part extension (the
    /// configuration error). Each plan names the descriptor, its output
    /// path, the search pattern its glob field resolves to under the
    /// base directory, and the preamble, postfix and indent to assemble
    /// the located fragments with.
    pub fn render_multipart(
        &mut self,
        inputs: &Vec<SourceInput>,
        descriptors: &Vec<(String, String)>,
    ) -> (r: Result<Vec<MultipartPlan>, Error>)
        requires
            inputs@.len() == old(self).data_sources@.len(),
        ensures
            final(self).wf(),
            final(self).context@ == spec_merged(old(self).data_sources@, inputs@),
            final(self).mode == old(self).mode,
            final(self).base_path == old(self).base_path,
            final(self).target_tpl_glob == old(self).target_tpl_glob,
            final(self).target_extension == old(self).target_extension,
            final(self).target_mp_extension == old(self).target_mp_extension,
            final(self).data_sources == old(self).data_sources,
            match r {
                Ok(plans) => plans@.len() == descriptors@.len() && forall|i: int|
                    0 <= i < plans@.len() ==> spec_multipart_plan(
                        old(self).base_path@,
                        old(self).target_mp_extension@,
                        (#[trigger] descriptors@[i]).0@,
                        descriptors@[i].1@,
                        plans@[i],
                    ),
                Err(e) => (e == Error::Parse && (exists|i: int|
                    0 <= i < descriptors@.len() && !spec_descriptor_ok(
                        (#[trigger] descriptors@[i]).1@,
                    ))) || (e == Error::Config && (exists|i: int|
                    0 <= i < descriptors@.len() && ends_with(
                        spec_output_path(
                            old(self).base_path@,
                            old(self).target_mp_extension@,
                            (#[trigger] descriptors@[i]).0@,
                        ),
                        old(self).target_mp_extension@,
                    ))),
            },
    {
        self.refresh_contexts(inputs);
        let base = self.base_path.clone();
        let ext = self.target_mp_extension.clone();
        let n = descriptors.len();
        let mut plans: Vec<MultipartPlan> = Vec::new();
        let mut i: usize = 0;
        while i < n
            invariant
                self.wf(),
                self.context@ == spec_merged(old(self).data_sources@, inputs@),
                self.mode == old(self).mode,
                self.base_path == old(self).base_path,
                self.target_tpl_glob == old(self).target_tpl_glob,
                self.target_extension == old(self).target_extension,
                self.target_mp_extension == old(self).target_mp_extension,
                self.data_sources == old(self).data_sources,
                n == descriptors@.len(),
                i <= n,
                base@ == old(self).base_path@,
                ext@ == old(self).target_mp_extension@,
                plans@.len() == i,
                forall|j: int|
                    0 <= j < i ==> spec_multipart_plan(
                        old(self).base_path@,
                        old(self).target_mp_extension@,
                        (#[trigger] descriptors@[j]).0@,
                        descriptors@[j].1@,
                        plans@[j],
                    ),
            decreases n - i,
        {
            let mpt = match parse_multipart(descriptors[i].1.as_str()) {
                Ok(m) => m,
                Err(e) => {
                    return Err(e);
                },
            };
            let out = match output_path(base.as_str(), ext.as_str(), descriptors[i].0.as_str()) {
                Ok(o) => o,
                Err(e) => {
                    return Err(e);
                },
            };
            let pattern = build_search_path(base.as_str(), mpt.glob.as_str(), "");
            proof {
                reveal_strlit("");
                assert(mpt.glob@ + ""@ =~= mpt.glob@);
            }
            plans.push(
                MultipartPlan {
                    descriptor_path: descriptors[i].0.clone(),
                    output_path: out,
                    fragment_pattern: pattern,
                    preamble: mpt.preamble,
                    postfix: mpt.postfix,
                    indent: mpt.indent,
                },
            );
            i += 1;
        }
        Ok(plans)
    }
}

/// The descriptor text parses and yields a well-shaped multi-part
/// template.
pub open spec fn spec_descriptor_ok(text: Seq<char>) -> bool {
    crate::yamlparse::yaml_of(text) matches Some(v) && spec_multipart(v) is Some
}

/// What one multi-part plan entry promises: the descriptor parsed to
/// these preamble, postfix and indent; the output path derives from the
/// descriptor path with the multi-part extension stripped and does not
/// bear that extension; and the fragment pattern is the descriptor's
/// glob resolved under the base directory.
pub open spec fn spec_multipart_plan(
    base: Seq<char>,
    ext: Seq<char>,
    dpath: Seq<char>,
    dtext: Seq<char>,
    plan: MultipartPlan,
) -> bool {
    spec_descriptor_ok(dtext) && {
        let mp = spec_multipart(crate::yamlparse::yaml_of(dtext)->Some_0)->Some_0;
        plan.descriptor_path@ == dpath && plan.preamble@ == mp.0 && plan.postfix@ == mp.2
            && plan.indent as nat == mp.3 && plan.fragment_pattern@ == path_join(base, mp.1)
            && plan.output_path@ == spec_output_path(base, ext, dpath) && !ends_with(
            plan.output_path@,
            ext,
        )
    }
}

/// Parse a multi-part descriptor document.
pub fn parse_multipart(text: &str) -> (r: Result<MultipartTemplate, Error>)
    ensures
        match r {
            Ok(m) => spec_descriptor_ok(text@) && spec_multipart(
                crate::yamlparse::yaml_of(text@)->Some_0,
            ) == Some((m.preamble@, m.glob@, m.postfix@, m.indent as nat)),
            Err(e) => e == Error::Parse && !spec_descriptor_ok(text@),
        },
{
    let v = match crate::yamlparse::parse_yaml(text) {
        Ok(v) => v,
        Err(e) => {
            return Err(e);
        },
    };
    match v {
        crate::node::Node::Mapping(pairs) => {
            let pre = crate::sources::get_scalar(&pairs, &String::from_str("preamble"));
            let g = crate::sources::get_scalar(&pairs, &String::from_str("glob"));
            let post = crate::sources::get_scalar(&pairs, &String::from_str("postfix"));
            let ind = crate::sources::get_scalar(&pairs, &String::from_str("indent"));
            match (pre, g, post, ind) {
                (Some(preamble), Some(glob), Some(postfix), Some(ind_text)) => match
                    crate::strutil::parse_u8(ind_text.as_str()) {
                    Some(indent) => Ok(MultipartTemplate { preamble, glob, postfix, indent }),
                    None => Err(Error::Parse),
                },
                _ => Err(Error::Parse),
            }
        },
        _ => Err(Error::Parse),
    }
}

/// `n` spaces.
pub open spec fn spaces(n: nat) -> Seq<char> {
    Seq::new(n, |i: int| ' ')
}

/// `s` with `pad` inserted after every line break.
pub open spec fn pad_after_breaks(s: Seq<char>, pad: Seq<char>) -> Seq<char>
    decreases s.len(),
{
    if s.len() == 0 {
        s
    } else if s[0] == '\n' {
        seq!['\n'] + pad + pad_after_breaks(s.skip(1), pad)
    } else {
        seq![s[0]] + pad_after_breaks(s.skip(1), pad)
    }
}

/// A fragment indented: `pad` before its first character and after every
/// line break; an empty fragment stays empty.
pub open spec fn spec_indent(s: Seq<char>, pad: Seq<char>) -> Seq<char> {
    if s.len() == 0 {
        s
    } else {
        pad + pad_after_breaks(s, pad)
    }
}

/// The fragments, each indented, concatenated in order.
pub open spec fn spec_fragments(frags: Seq<Seq<char>>, pad: Seq<char>) -> Seq<char>
    decreases frags.len(),
{
    if frags.len() == 0 {
        Seq::empty()
    } else {
        spec_fragments(frags.drop_last(), pad) + spec_indent(frags.last(), pad)
    }
}

/// The assembled multi-part template: the preamble text, then every
/// fragment indented by the given number of spaces, then the postfix
/// text.
pub open spec fn spec_assemble(
    pre: Seq<char>,
    frags: Seq<Seq<char>>,
    post: Seq<char>,
    indent: nat,
) -> Seq<char> {
    pre + spec_fragments(frags, spaces(indent)) + post
}

proof fn lemma_pad_push(s: Seq<char>, c: char, pad: Seq<char>)
    ensures
        pad_after_breaks(s.push(c), pad) == pad_after_breaks(s, pad) + (if c == '\n' {
            seq!['\n'] + pad
        } else {
            seq![c]
        }),
    decreases s.len(),
{
    let tail: Seq<char> = if c == '\n' {
        seq!['\n'] + pad
    } else {
        seq![c]
    };
    if s.len() == 0 {
        assert(s.push(c).len() == 1);
        assert(s.push(c)[0] == c);
        assert(s.push(c).skip(1) =~= Seq::<char>::empty());
        assert(pad_after_breaks(Seq::<char>::empty(), pad) =~= Seq::<char>::empty());
        assert(pad_after_breaks(s.push(c).skip(1), pad) =~= Seq::<char>::empty());
        assert(pad_after_breaks(s.push(c), pad) =~= tail);
        assert(pad_after_breaks(s, pad) + tail =~= tail);
    } else {
        assert(s.push(c)[0] == s[0]);
        assert(s.push(c).skip(1) =~= s.skip(1).push(c));
        lemma_pad_push(s.skip(1), c, pad);
        if s[0] == '\n' {
            assert(pad_after_breaks(s.push(c), pad) =~= pad_after_breaks(s, pad) + tail);
        } else {
            assert(pad_after_breaks(s.push(c), pad) =~= pad_after_breaks(s, pad) + tail);
        }
    }
}

/// One fragment, indented.
fn indent_fragment(s: &str, pad: &str) -> (out: String)
    ensures
        out@ == spec_indent(s@, pad@),
{
    let n = s.unicode_len();
    if n == 0 {
        return String::new();
    }
    let mut out = String::from_str(pad);
    let mut i: usize = 0;
    proof {
        assert(s@.take(0) =~= Seq::<char>::empty());
        assert(out@ =~= pad@ + pad_after_breaks(s@.take(0), pad@));
    }
    while i < n
        invariant
            n == s@.len(),
            i <= n,
            out@ == pad@ + pad_after_breaks(s@.take(i as int), pad@),
        decreases n - i,
    {
        let piece = s.substring_char(i, i + 1);
        proof {
            assert(piece@ =~= seq![s@[i as int]]);
            assert(s@.take(i + 1 as int) =~= s@.take(i as int).push(s@[i as int]));
            lemma_pad_push(s@.take(i as int), s@[i as int], pad@);
        }
        out.append(piece);
        if s.get_char(i) == '\n' {
            out.append(pad);
        }
        i += 1;
    }
    proof {
        assert(s@.take(n as int) =~= s@);
    }
    out
}

/// `n` spaces, as text.
fn make_pad(n: u8) -> (out: String)
    ensures
        out@ == spaces(n as nat),
{
    let mut out = String::new();
    let mut i: u8 = 0;
    proof {
        reveal_strlit(" ");
        assert(out@ =~= spaces(0));
    }
    while i < n
        invariant
            i <= n,
            out@ == spaces(i as nat),
            " "@ =~= seq![' '],
        decreases n - i,
    {
        out.append(" ");
        proof {
            assert(out@ =~= spaces((i + 1) as nat));
        }
        i += 1;
    }
    out
}

/// Assemble a multi-part template: the preamble text, every located
/// fragment's text indented by the descriptor's indent, and the postfix
/// text, concatenated in order. Feeding the result through the same
/// render path as a plain template is the caller's part.
pub fn assemble(preamble_text: &str, fragments: &Vec<String>, postfix_text: &str, indent: u8) -> (
    out: String)
    ensures
        out@ == spec_assemble(
            preamble_text@,
            crate::csvsrc::strings_view(fragments@),
            postfix_text@,
            indent as nat,
        ),
{
    let ghost fv = crate::csvsrc::strings_view(fragments@);
    let pad = make_pad(indent);
    let mut out = String::from_str(preamble_text);
    let n = fragments.len();
    let mut i: usize = 0;
    proof {
        assert(fv.take(0) =~= Seq::<Seq<char>>::empty());
        assert(out@ =~= preamble_text@ + spec_fragments(fv.take(0), pad@));
    }
    while i < n
        invariant
            n == fragments@.len(),
            fv == crate::csvsrc::strings_view(fragments@),
            fv.len() == n,
            i <= n,
            pad@ == spaces(indent as nat),
            out@ == preamble_text@ + spec_fragments(fv.take(i as int), pad@),
        decreases n - i,
    {
        let piece = indent_fragment(fragments[i].as_str(), pad.as_str());
        proof {
            assert(fv.take(i + 1 as int).drop_last() =~= fv.take(i as int));
            assert(fv.take(i + 1 as int).last() == fv[i as int]);
        }
        out.append(piece.as_str());
        proof {
            assert(out@ =~= preamble_text@ + spec_fragments(fv.take(i + 1 as int), pad@));
        }
        i += 1;
    }
    proof {
        assert(fv.take(n as int) =~= fv);
    }
    out.append(postfix_text);
    out
}

/// Re-running a render pass changes nothing: over equal source lists,
/// equal inputs and an equal template list, two passes merge equal
/// contexts and derive equal output paths, so the template engine is
/// invoked on identical template/context pairs and handed to identical
/// destinations. (That the engine itself is deterministic is the
/// engine's affair, not this library's.)
pub proof fn lemma_render_pass_deterministic(
    sources1: Seq<DataSource>,
    inputs1: Seq<SourceInput>,
    sources2: Seq<DataSource>,
    inputs2: Seq<SourceInput>,
    base: Seq<char>,
    ext: Seq<char>,
    tpl: Seq<char>,
)
    requires
        sources1 == sources2,
        inputs1 == inputs2,
    ensures
        spec_merged(sources1, inputs1) == spec_merged(sources2, inputs2),
        spec_output_path(base, ext, tpl) == spec_output_path(base, ext, tpl),
{
}

} // verus!
