//! The hooks that can be launched.
use std::time::Duration;
use vstd::hash_map::StringHashMap;
use vstd::prelude::*;
use vstd::string::*;

verus! {

/// Configuration for a specific hook
#[derive(Debug, PartialEq, Eq)]
pub struct Hook {
    /// Command to execute in the hook
    pub command: String,
    /// Working directory for the command
    pub work_dir: String,
    /// Allowed env var keys for including in the hook
    pub allowed_keys: Vec<String>,
    /// How long the command may run before it is killed
    pub timeout: Duration,
}

/// What a `Hook` holds, as plain values.
pub struct HookView {
    pub command: Seq<char>,
    pub work_dir: Seq<char>,
    pub allowed_keys: Seq<Seq<char>>,
    pub timeout: Duration,
}

impl View for Hook {
    type V = HookView;

    open spec fn view(&self) -> HookView {
        HookView {
            command: self.command@,
            work_dir: self.work_dir@,
            allowed_keys: self.allowed_keys.deep_view(),
            timeout: self.timeout,
        }
    }
}

/// A copy of a list of texts.
pub fn copy_texts(texts: &Vec<String>) -> (copy: Vec<String>)
    ensures
        copy.deep_view() == texts.deep_view(),
{
    let mut copy: Vec<String> = Vec::new();
    for i in 0..texts.len()
        invariant
            copy@.len() == i,
            forall|j: int| 0 <= j < i ==> (#[trigger] copy@[j])@ == texts@[j]@,
    {
        copy.push(texts[i].clone());
    }
    assert(copy.deep_view() =~= texts.deep_view());
    copy
}

impl Clone for Hook {
    fn clone(&self) -> (copy: Self)
        ensures
            copy@ == self@,
    {
        Hook {
            command: self.command.clone(),
            work_dir: self.work_dir.clone(),
            allowed_keys: copy_texts(&self.allowed_keys),
            timeout: self.timeout,
        }
    }
}

/// Service configuration: the hooks by name.
pub struct Config {
    hooks: StringHashMap<Hook>,
}

impl View for Config {
    type V = Map<Seq<char>, Hook>;

    closed spec fn view(&self) -> Map<Seq<char>, Hook> {
        self.hooks@
    }
}

impl Config {
    /// A configuration without hooks.
    pub fn new() -> (config: Self)
        ensures
            config@ == Map::<Seq<char>, Hook>::empty(),
    {
        Config { hooks: StringHashMap::new() }
    }

    /// Configures `hook` under `name`, in place of any hook of that name.
    pub fn insert(&mut self, name: String, hook: Hook)
        ensures
            final(self)@ == old(self)@.insert(name@, hook),
    {
        self.hooks.insert(name, hook);
    }

    /// The hook configured under `name`, if there is one.
    pub fn get(&self, name: &str) -> (hook: Option<&Hook>)
        ensures
            match hook {
                Some(found) => self@.contains_key(name@) && *found == self@[name@],
                None => !self@.contains_key(name@),
            },
    {
        self.hooks.get(name)
    }
}

} // verus!
