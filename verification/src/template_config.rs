//! The template configuration registry and template lookup keys.

use vstd::prelude::*;

use crate::EngineError;

verus! {

/// One registered template: its display name, the class implementing it,
/// and the path it is imported from.
#[derive(Debug)]
pub struct TemplateInfo {
    pub template_name: String,
    pub class_name: String,
    pub import_path: String,
}

/// The template configuration: the registered templates, in registration
/// order, with pairwise distinct names.
#[derive(Debug)]
pub struct TemplateConfig {
    pub templates: Vec<TemplateInfo>,
}

/// Whether the configuration already registers a template of this name.
pub open spec fn spec_has_template_name(templates: Seq<TemplateInfo>, name: Seq<char>) -> bool {
    exists|i: int| 0 <= i < templates.len() && templates[i].template_name@ == name
}

impl TemplateConfig {
    /// An empty configuration.
    pub fn new() -> (config: TemplateConfig)
        ensures
            config.templates@ == Seq::<TemplateInfo>::empty(),
    {
        TemplateConfig { templates: Vec::new() }
    }

    /// Registers a template: appends it, unless one of the same name is
    /// already registered, in which case nothing changes.
    pub fn add_template_info(
        &mut self,
        template_name: String,
        class_name: String,
        import_path: String,
    ) -> (r: Result<(), EngineError>)
        ensures
            spec_has_template_name(old(self).templates@, template_name@) ==> {
                &&& r matches Err(e) && e == EngineError::DuplicateTemplateName
                &&& *final(self) == *old(self)
            },
            !spec_has_template_name(old(self).templates@, template_name@) ==> {
                &&& r matches Ok(u) && u == ()
                &&& final(self).templates@ == old(self).templates@.push(
                    TemplateInfo { template_name, class_name, import_path },
                )
            },
    {
        let mut i: usize = 0;
        while i < self.templates.len()
            invariant
                0 <= i <= self.templates@.len(),
                *self == *old(self),
                forall|k: int| 0 <= k < i ==> self.templates@[k].template_name@ != template_name@,
            decreases self.templates@.len() - i,
        {
            if self.templates[i].template_name == template_name {
                return Result::Err(EngineError::DuplicateTemplateName);
            }
            i += 1;
        }
        self.templates.push(TemplateInfo { template_name, class_name, import_path });
        Result::Ok(())
    }
}

/// A template lookup key: templates can be fetched by id or by name.
#[derive(Debug)]
pub enum TemplateIdentifier<'a> {
    Id(u32),
    Name(&'a str),
}

impl<'a> From<u32> for TemplateIdentifier<'a> {
    fn from(id: u32) -> (key: Self)
        ensures
            key == TemplateIdentifier::<'a>::Id(id),
    {
        TemplateIdentifier::Id(id)
    }
}

impl<'a> vstd::std_specs::convert::FromSpecImpl<u32> for TemplateIdentifier<'a> {
    open spec fn obeys_from_spec() -> bool {
        true
    }

    open spec fn from_spec(id: u32) -> Self {
        TemplateIdentifier::Id(id)
    }
}

impl<'a> From<&'a str> for TemplateIdentifier<'a> {
    fn from(name: &'a str) -> (key: Self)
        ensures
            key == TemplateIdentifier::<'a>::Name(name),
    {
        TemplateIdentifier::Name(name)
    }
}

impl<'a> vstd::std_specs::convert::FromSpecImpl<&'a str> for TemplateIdentifier<'a> {
    open spec fn obeys_from_spec() -> bool {
        true
    }

    open spec fn from_spec(name: &'a str) -> Self {
        TemplateIdentifier::Name(name)
    }
}

} // verus!
