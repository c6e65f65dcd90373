//! The configuration manager: the resource types, record extensions and
//! retrievers that the configuration files describe.
//!
//! Reading the files is left to the caller; the manager takes what they
//! hold, one template or retriever at a time, and keeps the registry.
use vstd::prelude::*;

use crate::error::LearnerError;
use crate::json::{deep_all_entries, put, spec_put, JsonSpec, JsonValue};
use crate::keyed::{find_keyed, keyed_view, keys_of, put_keyed, spec_lookup, spec_put_keyed};
use crate::record::{Resource, Retrieval, State, Storage};
use crate::retriever::{Mapping, ResponseFormat, Retriever};
use crate::template::{FieldDefinition, Template, TemplatedItem};
use crate::text::{owned, str_eq, views};

verus! {

broadcast use vstd::std_specs::vec::group_vec_axioms;

/// What a template describes.
#[derive(Debug)]
pub enum TemplateType {
    /// A resource type.
    Resource,
    /// Extensions of the reading state.
    State,
    /// Extensions of the storage data.
    Storage,
    /// Extensions of the retrieval data.
    Retrieval,
}

/// A retriever's configuration as read, without its templates.
#[derive(Debug)]
pub struct RetrieverConfig {
    pub name: String,
    pub description: Option<String>,
    pub base_url: String,
    pub pattern: String,
    pub source: String,
    pub endpoint_template: String,
    pub response_format: ResponseFormat,
    pub headers: Vec<(String, String)>,
    pub resource_mappings: Vec<(String, Mapping)>,
    pub retrieval_mappings: Vec<(String, Mapping)>,
}

/// The registry that the configuration files describe.
#[derive(Debug)]
pub struct ConfigurationManager {
    config_root: String,
    resources: Vec<(String, Resource)>,
    retrievers: Vec<(String, Retriever)>,
    state: State,
    storage: Storage,
    retrieval: Retrieval,
}

/// The extension entries that the fields `0..n` of a template make: each
/// field's name with an empty object, leaving out `title` when asked to.
pub open spec fn spec_extension(fields: Seq<FieldDefinition>, skip_title: bool, n: int) -> Seq<
    (Seq<char>, JsonSpec),
>
    decreases n,
{
    if n <= 0 || n > fields.len() {
        seq![]
    } else {
        let acc = spec_extension(fields, skip_title, n - 1);
        let name = fields[n - 1].name@;
        if skip_title && name == "title"@ {
            acc
        } else {
            spec_put(acc, name, JsonSpec::Object(seq![]))
        }
    }
}

/// The extension entries that a template's fields make.
pub open spec fn spec_template_extension(t: Template, skip_title: bool) -> Seq<(Seq<char>, JsonSpec)> {
    spec_extension(t.fields@, skip_title, t.fields@.len() as int)
}

fn extension(t: &Template, skip_title: bool) -> (r: TemplatedItem)
    ensures
        deep_all_entries(r@) == spec_template_extension(*t, skip_title),
{
    let mut out: Vec<(String, JsonValue)> = Vec::new();
    proof {
        crate::json::lemma_deep_all_entries(out@);
    }
    let mut k: usize = 0;
    while k < t.fields.len()
        invariant
            k <= t.fields.len(),
            deep_all_entries(out@) == spec_extension(t.fields@, skip_title, k as int),
        decreases t.fields.len() - k,
    {
        let name = t.fields[k].name.as_str();
        if !(skip_title && str_eq(name, "title")) {
            let empty: Vec<(String, JsonValue)> = Vec::new();
            proof {
                crate::json::lemma_deep_all_entries(empty@);
                assert(deep_all_entries(empty@) =~= Seq::<(Seq<char>, JsonSpec)>::empty());
            }
            put(&mut out, owned(name), JsonValue::Object(empty));
        }
        k = k + 1;
    }
    out
}

/// The resource types by name, each as its title and entries.
pub open spec fn resource_views(v: Seq<(String, Resource)>) -> Seq<(Seq<char>, (Seq<char>, Seq<(Seq<char>, JsonSpec)>))> {
    v.map_values(|e: (String, Resource)| (e.0@, e.1.view_resource()))
}

impl ConfigurationManager {
    /// The resource types by name.
    pub closed spec fn spec_resources(&self) -> Seq<(Seq<char>, (Seq<char>, Seq<(Seq<char>, JsonSpec)>))> {
        resource_views(self.resources@)
    }

    /// The retrievers by name.
    pub closed spec fn spec_retrievers(&self) -> Seq<(Seq<char>, Retriever)> {
        keyed_view(self.retrievers@)
    }

    /// The extension entries of the reading state.
    pub closed spec fn spec_state_extension(&self) -> Seq<(Seq<char>, JsonSpec)> {
        deep_all_entries(self.state.extended@)
    }

    /// The extension entries of the storage data.
    pub closed spec fn spec_storage_extension(&self) -> Seq<(Seq<char>, JsonSpec)> {
        deep_all_entries(self.storage.extended@)
    }

    /// The retrieval data that retrievers are made with.
    pub closed spec fn spec_retrieval(&self) -> Retrieval {
        self.retrieval
    }

    /// The directory that the configuration files are read from.
    pub closed spec fn spec_config_root(&self) -> Seq<char> {
        self.config_root@
    }

    /// A manager of the configuration under `config_root`, with nothing
    /// loaded yet.
    pub fn new(config_root: String) -> (r: Result<ConfigurationManager, LearnerError>)
        ensures
            r is Ok,
            r matches Ok(m) ==> m.spec_config_root() == config_root@ && m.spec_resources().len() == 0
                && m.spec_retrievers().len() == 0 && m.spec_state_extension().len() == 0
                && m.spec_storage_extension().len() == 0 && m.spec_retrieval().view_retrieval().4.len() == 0,
    {
        let state = State::default();
        let storage = Storage::default();
        let retrieval = Retrieval::default();
        proof {
            crate::json::lemma_deep_all_entries(state.extended@);
            crate::json::lemma_deep_all_entries(storage.extended@);
            crate::json::lemma_deep_all_entries(retrieval.extended@);
        }
        let m = ConfigurationManager {
            config_root,
            resources: Vec::new(),
            retrievers: Vec::new(),
            state,
            storage,
            retrieval,
        };
        assert(resource_views(m.resources@) =~= Seq::empty());
        Ok(m)
    }

    /// Starts a scan of the configuration: forgets the resource types and
    /// retrievers loaded before.
    pub fn begin_scan(&mut self)
        ensures
            final(self).spec_resources().len() == 0,
            final(self).spec_retrievers().len() == 0,
            final(self).spec_config_root() == old(self).spec_config_root(),
            final(self).spec_state_extension() == old(self).spec_state_extension(),
            final(self).spec_storage_extension() == old(self).spec_storage_extension(),
            final(self).spec_retrieval() == old(self).spec_retrieval(),
    {
        self.resources = Vec::new();
        self.retrievers = Vec::new();
        assert(resource_views(self.resources@) =~= Seq::empty());
    }

    /// Takes in a template: a resource template becomes a resource type under
    /// its name, whose entries are its fields but `title`, each an empty
    /// object; a state, storage or retrieval template replaces the extension
    /// entries of that part with its fields, each an empty object.
    pub fn apply_template(&mut self, kind: TemplateType, template: &Template)
        ensures
            final(self).spec_config_root() == old(self).spec_config_root(),
            final(self).spec_retrievers() == old(self).spec_retrievers(),
            kind is Resource ==> final(self).spec_resources() == spec_put_keyed(
                old(self).spec_resources(),
                template.name@,
                (Seq::<char>::empty(), spec_template_extension(*template, true)),
            ),
            !(kind is Resource) ==> final(self).spec_resources() == old(self).spec_resources(),
            final(self).spec_state_extension() == if kind is State {
                spec_template_extension(*template, false)
            } else {
                old(self).spec_state_extension()
            },
            final(self).spec_storage_extension() == if kind is Storage {
                spec_template_extension(*template, false)
            } else {
                old(self).spec_storage_extension()
            },
            kind is Retrieval ==> final(self).spec_retrieval().view_retrieval().4 == spec_template_extension(
                *template,
                false,
            ) && final(self).spec_retrieval().view_retrieval().0 == old(self).spec_retrieval().view_retrieval().0
                && final(self).spec_retrieval().view_retrieval().1 == old(self).spec_retrieval().view_retrieval().1
                && final(self).spec_retrieval().view_retrieval().2 == old(self).spec_retrieval().view_retrieval().2
                && final(self).spec_retrieval().view_retrieval().3 == old(self).spec_retrieval().view_retrieval().3,
            !(kind is Retrieval) ==> final(self).spec_retrieval() == old(self).spec_retrieval(),
    {
        match kind {
            TemplateType::Resource => {
                let extended = extension(template, true);
                let resource = Resource { title: String::new(), extended };
                let ghost before = self.resources@;
                put_keyed(&mut self.resources, template.name.clone(), resource);
                proof {
                    lemma_resource_views_put(before, template.name, resource);
                }
            },
            TemplateType::State => {
                self.state.extended = extension(template, false);
            },
            TemplateType::Storage => {
                self.storage.extended = extension(template, false);
            },
            TemplateType::Retrieval => {
                self.retrieval.extended = extension(template, false);
            },
        }
    }

    /// Takes in a retriever's configuration: the resource template that it
    /// names must be a loaded resource type; the retriever, made with that
    /// resource and the retrieval data, is kept under its name.
    pub fn add_retriever(&mut self, config: RetrieverConfig, resource_template: Option<String>) -> (r: Result<
        (),
        LearnerError,
    >)
        ensures
            final(self).spec_config_root() == old(self).spec_config_root(),
            final(self).spec_resources() == old(self).spec_resources(),
            final(self).spec_state_extension() == old(self).spec_state_extension(),
            final(self).spec_storage_extension() == old(self).spec_storage_extension(),
            final(self).spec_retrieval() == old(self).spec_retrieval(),
            resource_template is None ==> (r matches Err(e) && e is Config && e->Config_0@
                == "Retriever missing resource_template"@),
            resource_template matches Some(t) ==> (r is Ok <==> spec_lookup(old(self).spec_resources(), t@) is Some),
            resource_template matches Some(t) ==> (r matches Err(e) ==> e is Config && e->Config_0@
                == "Resource template "@ + t@ + " not found"@),
            r is Err ==> final(self).spec_retrievers() == old(self).spec_retrievers(),
            r is Ok ==> exists|made: Retriever|
                {
                    &&& final(self).spec_retrievers() == spec_put_keyed(
                        old(self).spec_retrievers(),
                        config.name@,
                        made,
                    )
                    &&& made.name == config.name
                    &&& made.description == config.description
                    &&& made.base_url == config.base_url
                    &&& made.pattern == config.pattern
                    &&& made.source == config.source
                    &&& made.endpoint_template == config.endpoint_template
                    &&& made.response_format == config.response_format
                    &&& made.headers == config.headers
                    &&& made.resource_mappings == config.resource_mappings
                    &&& made.retrieval_mappings == config.retrieval_mappings
                    &&& Some(made.resource.view_resource()) == spec_lookup(
                        old(self).spec_resources(),
                        resource_template->Some_0@,
                    )
                    &&& made.retrieval.view_retrieval() == old(self).spec_retrieval().view_retrieval()
                },
    {
        let template_name = match resource_template {
            Some(t) => t,
            None => {
                return Err(LearnerError::Config(owned("Retriever missing resource_template")));
            },
        };
        let found = find_keyed(&self.resources, template_name.as_str());
        proof {
            lemma_resource_views_lookup(self.resources@, template_name@);
        }
        let resource = match found {
            Some(i) => self.resources[i].1.copy(),
            None => {
                return Err(
                    LearnerError::Config(
                        owned("Resource template ").concat(template_name.as_str()).concat(" not found"),
                    ),
                );
            },
        };
        let retrieval = self.retrieval.copy();
        let RetrieverConfig {
            name,
            description,
            base_url,
            pattern,
            source,
            endpoint_template,
            response_format,
            headers,
            resource_mappings,
            retrieval_mappings,
        } = config;
        let key = name.clone();
        let made = Retriever {
            name,
            description,
            base_url,
            pattern,
            source,
            endpoint_template,
            response_format,
            headers,
            resource,
            resource_mappings,
            retrieval,
            retrieval_mappings,
        };
        let ghost g = made;
        put_keyed(&mut self.retrievers, key, made);
        assert(g.resource.view_resource() == spec_lookup(keyed_view(old(self).resources@), template_name@)->Some_0.view_resource());
        assert(self.spec_retrievers() == spec_put_keyed(old(self).spec_retrievers(), g.name@, g));
        Ok(())
    }

    /// Checks that loading found what the library needs: at least one
    /// resource type and at least one retriever.
    pub fn check_loaded(&self) -> (r: Result<(), LearnerError>)
        ensures
            r is Ok <==> self.spec_resources().len() > 0 && self.spec_retrievers().len() > 0,
            r matches Err(e) ==> e is Config && e->Config_0@ == if self.spec_resources().len() == 0 {
                "No resource templates loaded"@
            } else {
                "No retrievers loaded"@
            },
    {
        if self.resources.len() == 0 {
            return Err(LearnerError::Config(owned("No resource templates loaded")));
        }
        if self.retrievers.len() == 0 {
            return Err(LearnerError::Config(owned("No retrievers loaded")));
        }
        Ok(())
    }

    /// The names of the resource types, in order.
    pub fn get_resource_types(&self) -> (r: Vec<String>)
        ensures
            views(r@) == self.spec_resources().map_values(|e: (Seq<char>, (Seq<char>, Seq<(Seq<char>, JsonSpec)>))| e.0),
    {
        let r = keys_of(&self.resources);
        assert(views(r@) =~= self.spec_resources().map_values(
            |e: (Seq<char>, (Seq<char>, Seq<(Seq<char>, JsonSpec)>))| e.0,
        ));
        r
    }

    /// The names of the retrievers, in order.
    pub fn get_retrievers(&self) -> (r: Vec<String>)
        ensures
            views(r@) == self.spec_retrievers().map_values(|e: (Seq<char>, Retriever)| e.0),
    {
        keys_of(&self.retrievers)
    }

    /// The resource type of a name.
    pub fn get_resource(&self, name: &str) -> (r: Result<&Resource, LearnerError>)
        ensures
            r is Ok <==> spec_lookup(self.spec_resources(), name@) is Some,
            r matches Ok(res) ==> Some(res.view_resource()) == spec_lookup(self.spec_resources(), name@),
            r matches Err(e) ==> e is Config && e->Config_0@ == "Resource template "@ + name@ + " not found"@,
    {
        proof {
            lemma_resource_views_lookup(self.resources@, name@);
        }
        match find_keyed(&self.resources, name) {
            Some(i) => Ok(&self.resources[i].1),
            None => Err(LearnerError::Config(owned("Resource template ").concat(name).concat(" not found"))),
        }
    }

    /// The retriever of a name.
    pub fn get_retriever(&self, name: &str) -> (r: Result<&Retriever, LearnerError>)
        ensures
            r is Ok <==> spec_lookup(self.spec_retrievers(), name@) is Some,
            r matches Ok(ret) ==> Some(*ret) == spec_lookup(self.spec_retrievers(), name@),
            r matches Err(e) ==> e is Config && e->Config_0@ == "Retriever "@ + name@ + " not found"@,
    {
        match find_keyed(&self.retrievers, name) {
            Some(i) => Ok(&self.retrievers[i].1),
            None => Err(LearnerError::Config(owned("Retriever ").concat(name).concat(" not found"))),
        }
    }

    /// The reading state that records start from.
    pub fn state(&self) -> (r: &State)
        ensures
            deep_all_entries(r.extended@) == self.spec_state_extension(),
    {
        &self.state
    }

    /// The storage data that records start from.
    pub fn storage(&self) -> (r: &Storage)
        ensures
            deep_all_entries(r.extended@) == self.spec_storage_extension(),
    {
        &self.storage
    }

    /// The retrieval data that retrievers are made with.
    pub fn retrieval(&self) -> (r: &Retrieval)
        ensures
            *r == self.spec_retrieval(),
    {
        &self.retrieval
    }
}

proof fn lemma_resource_views_put(v: Seq<(String, Resource)>, name: String, res: Resource)
    ensures
        forall|w: Seq<(String, Resource)>|
            keyed_view(w) == spec_put_keyed(keyed_view(v), name@, res) ==> #[trigger] resource_views(w)
                == spec_put_keyed(resource_views(v), name@, res.view_resource()),
    decreases v.len(),
{
    assert forall|w: Seq<(String, Resource)>|
        keyed_view(w) == spec_put_keyed(keyed_view(v), name@, res) implies #[trigger] resource_views(w)
        == spec_put_keyed(resource_views(v), name@, res.view_resource()) by {
        lemma_views_of_put(v, w, name, res);
    }
}

proof fn lemma_views_of_put(v: Seq<(String, Resource)>, w: Seq<(String, Resource)>, name: String, res: Resource)
    requires
        keyed_view(w) == spec_put_keyed(keyed_view(v), name@, res),
    ensures
        resource_views(w) == spec_put_keyed(resource_views(v), name@, res.view_resource()),
    decreases v.len(),
{
    let kv = keyed_view(v);
    let rv = resource_views(v);
    if v.len() == 0 {
        assert(keyed_view(w) =~= seq![(name@, res)]);
        assert(w.len() == 1);
        assert(keyed_view(w)[0] == (w[0].0@, w[0].1));
        assert(resource_views(w) =~= seq![(name@, res.view_resource())]);
    } else {
        assert(kv[0] == (v[0].0@, v[0].1));
        assert(rv[0] == (v[0].0@, v[0].1.view_resource()));
        assert(kv.drop_first() =~= keyed_view(v.drop_first()));
        assert(rv.drop_first() =~= resource_views(v.drop_first()));
        if kv[0].0 == name@ {
            assert(keyed_view(w) =~= seq![(name@, res)] + kv.drop_first());
            assert(resource_views(w) =~= seq![(name@, res.view_resource())] + rv.drop_first()) by {
                assert forall|j: int| 0 <= j < w.len() implies #[trigger] resource_views(w)[j] == (seq![(name@, res.view_resource())] + rv.drop_first())[j] by {
                    assert(keyed_view(w)[j] == (w[j].0@, w[j].1));
                    if j > 0 {
                        assert(keyed_view(w)[j] == kv[j]);
                    }
                }
            }
        } else if crate::json::key_lt(name@, kv[0].0) {
            assert(keyed_view(w) =~= seq![(name@, res)] + kv);
            assert(resource_views(w) =~= seq![(name@, res.view_resource())] + rv) by {
                assert forall|j: int| 0 <= j < w.len() implies #[trigger] resource_views(w)[j] == (seq![(name@, res.view_resource())] + rv)[j] by {
                    assert(keyed_view(w)[j] == (w[j].0@, w[j].1));
                    if j > 0 {
                        assert(keyed_view(w)[j] == kv[j - 1]);
                    }
                }
            }
        } else {
            assert(keyed_view(w) =~= seq![kv[0]] + spec_put_keyed(kv.drop_first(), name@, res));
            assert(w.len() == keyed_view(w).len());
            let w2 = w.drop_first();
            assert(keyed_view(w2) =~= spec_put_keyed(keyed_view(v.drop_first()), name@, res)) by {
                assert forall|j: int| 0 <= j < w2.len() implies #[trigger] keyed_view(w2)[j] == keyed_view(w)[j + 1] by {}
            }
            lemma_views_of_put(v.drop_first(), w2, name, res);
            assert(keyed_view(w)[0] == (w[0].0@, w[0].1));
            assert(resource_views(w) =~= seq![rv[0]] + resource_views(w2)) by {
                assert forall|j: int| 0 <= j < w.len() implies #[trigger] resource_views(w)[j] == (seq![rv[0]] + resource_views(w2))[j] by {
                    if j > 0 {
                        assert(w2[j - 1] == w[j]);
                    }
                }
            }
        }
    }
}

proof fn lemma_resource_views_lookup(v: Seq<(String, Resource)>, name: Seq<char>)
    ensures
        spec_lookup(resource_views(v), name) == match spec_lookup(keyed_view(v), name) {
            Some(r) => Some(r.view_resource()),
            None => None,
        },
    decreases v.len(),
{
    if v.len() > 0 {
        assert(keyed_view(v).drop_first() =~= keyed_view(v.drop_first()));
        assert(resource_views(v).drop_first() =~= resource_views(v.drop_first()));
        assert(keyed_view(v)[0] == (v[0].0@, v[0].1));
        assert(resource_views(v)[0] == (v[0].0@, v[0].1.view_resource()));
        lemma_resource_views_lookup(v.drop_first(), name);
    }
}

} // verus!
