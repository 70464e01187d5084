//! The document-wide compilation context: an arena owning every file
//! buffer for the run, document information, and the extension
//! runtime's configuration.

use vstd::prelude::*;

verus! {

/// One loaded source file: its name and its content, never mutated
/// after load.
#[derive(Debug, PartialEq, Eq)]
pub struct File {
    pub name: String,
    pub content: String,
}

impl File {
    pub fn name(&self) -> (r: &str)
        ensures
            r@ == self.name@,
    {
        self.name.as_str()
    }

    pub fn content(&self) -> (r: &str)
        ensures
            r@ == self.content@,
    {
        self.content.as_str()
    }
}

/// A version of the document language, as the document declares it.
#[derive(Debug, Clone, Copy, PartialEq, Eq)]
pub struct Version {
    pub major: usize,
    pub minor: usize,
}

impl Version {
    pub fn new(major: usize, minor: usize) -> (r: Version)
        ensures
            r.major == major,
            r.minor == minor,
    {
        Version { major, minor }
    }
}

/// The name a module is loaded under.
#[derive(Debug, Clone, PartialEq, Eq)]
pub struct ModuleName {
    pub name: String,
}

impl ModuleName {
    pub fn new(name: String) -> (r: ModuleName)
        ensures
            r.name == name,
    {
        ModuleName { name }
    }
}

/// An extension module requested by the document or the command line.
#[derive(Debug, Clone, PartialEq, Eq)]
pub struct Module {
    pub source: String,
    pub version: Option<String>,
}

impl Module {
    pub fn new(source: String, version: Option<String>) -> (r: Module)
        ensures
            r.source == source,
            r.version == version,
    {
        Module { source, version }
    }
}

/// Information the document states about itself.
#[derive(Debug, Default)]
pub struct DocInfo {
    pub name: Option<String>,
    pub emblem_version: Option<Version>,
    pub authors: Option<Vec<String>>,
    pub keywords: Option<Vec<String>>,
}

impl DocInfo {
    pub fn set_name(&mut self, name: String)
        ensures
            final(self).name matches Some(n) && n == name,
            final(self).emblem_version == old(self).emblem_version,
            final(self).authors == old(self).authors,
            final(self).keywords == old(self).keywords,
    {
        self.name = Some(name);
    }

    pub fn name(&self) -> (r: Option<&str>)
        ensures
            match self.name {
                Some(n) => r matches Some(v) && v@ == n@,
                None => r is None,
            },
    {
        match self.name.as_ref() {
            None => None,
            Some(n) => Some(n.as_str()),
        }
    }

    pub fn set_emblem_version(&mut self, emblem_version: Version)
        ensures
            final(self).emblem_version matches Some(v) && v == emblem_version,
            final(self).name == old(self).name,
            final(self).authors == old(self).authors,
            final(self).keywords == old(self).keywords,
    {
        self.emblem_version = Some(emblem_version);
    }

    pub fn emblem_version(&self) -> (r: &Option<Version>)
        ensures
            r == self.emblem_version,
    {
        &self.emblem_version
    }

    pub fn set_authors(&mut self, authors: Vec<String>)
        ensures
            final(self).authors matches Some(a) && a == authors,
            final(self).name == old(self).name,
            final(self).emblem_version == old(self).emblem_version,
            final(self).keywords == old(self).keywords,
    {
        self.authors = Some(authors);
    }

    pub fn authors(&self) -> (r: &Option<Vec<String>>)
        ensures
            r == self.authors,
    {
        &self.authors
    }

    pub fn set_keywords(&mut self, keywords: Vec<String>)
        ensures
            final(self).keywords matches Some(k) && k == keywords,
            final(self).name == old(self).name,
            final(self).emblem_version == old(self).emblem_version,
            final(self).authors == old(self).authors,
    {
        self.keywords = Some(keywords);
    }

    pub fn keywords(&self) -> (r: &Option<Vec<String>>)
        ensures
            r == self.keywords,
    {
        &self.keywords
    }
}

/// How far the extension runtime may reach outside the document.
#[derive(Debug, Clone, Copy, PartialEq, Eq, PartialOrd, Ord)]
pub enum SandboxLevel {
    /// Can break the tool's abstractions.
    Unsound,
    /// Side effects allowed anywhere on the host system.
    Unrestricted,
    /// Side effects allowed within the document's folder only.
    Standard,
    /// No side effects on the host system.
    Strict,
}

impl Default for SandboxLevel {
    fn default() -> (r: Self)
        ensures
            r == SandboxLevel::Standard,
    {
        SandboxLevel::Standard
    }
}

impl SandboxLevel {
    /// The levels a user may ask for.
    pub fn input_levels() -> (r: Vec<SandboxLevel>)
        ensures
            r@ == seq![
                SandboxLevel::Unrestricted,
                SandboxLevel::Standard,
                SandboxLevel::Strict,
            ],
    {
        let mut v: Vec<SandboxLevel> = Vec::new();
        v.push(SandboxLevel::Unrestricted);
        v.push(SandboxLevel::Standard);
        v.push(SandboxLevel::Strict);
        proof {
            assert(v@ =~= seq![
                SandboxLevel::Unrestricted,
                SandboxLevel::Standard,
                SandboxLevel::Strict,
            ]);
        }
        v
    }
}

/// A cap on a resource, or no cap at all.
#[derive(Debug, Clone, Copy, PartialEq, Eq)]
pub enum ResourceLimit<T> {
    Unlimited,
    Limited(T),
}

impl<T> Default for ResourceLimit<T> {
    fn default() -> (r: Self)
        ensures
            r is Unlimited,
    {
        ResourceLimit::Unlimited
    }
}

impl ResourceLimit<usize> {
    /// The cap as a plain count: an unlimited cap is the largest count.
    pub fn into_usize(self) -> (r: usize)
        ensures
            r == (match self {
                ResourceLimit::Unlimited => usize::MAX,
                ResourceLimit::Limited(l) => l,
            }),
    {
        match self {
            ResourceLimit::Unlimited => usize::MAX,
            ResourceLimit::Limited(l) => l,
        }
    }
}

impl ResourceLimit<u32> {
    /// The cap as a plain count: an unlimited cap is the largest count.
    pub fn into_u32(self) -> (r: u32)
        ensures
            r == (match self {
                ResourceLimit::Unlimited => u32::MAX,
                ResourceLimit::Limited(l) => l,
            }),
    {
        match self {
            ResourceLimit::Unlimited => u32::MAX,
            ResourceLimit::Limited(l) => l,
        }
    }
}

/// The extension runtime's configuration.
#[derive(Debug, Default)]
pub struct LuaInfo {
    pub sandbox: SandboxLevel,
    pub max_mem: ResourceLimit<usize>,
    pub general_args: Option<Vec<(String, String)>>,
    pub modules: Option<Vec<(String, Module)>>,
}

impl LuaInfo {
    pub fn set_sandbox(&mut self, sandbox: SandboxLevel)
        ensures
            final(self).sandbox == sandbox,
            final(self).max_mem == old(self).max_mem,
            final(self).general_args == old(self).general_args,
            final(self).modules == old(self).modules,
    {
        self.sandbox = sandbox;
    }

    pub fn sandbox(&self) -> (r: SandboxLevel)
        ensures
            r == self.sandbox,
    {
        self.sandbox
    }

    pub fn set_max_mem(&mut self, max_mem: ResourceLimit<usize>)
        ensures
            final(self).max_mem == max_mem,
            final(self).sandbox == old(self).sandbox,
            final(self).general_args == old(self).general_args,
            final(self).modules == old(self).modules,
    {
        self.max_mem = max_mem;
    }

    pub fn max_mem(&self) -> (r: ResourceLimit<usize>)
        ensures
            r == self.max_mem,
    {
        self.max_mem
    }

    pub fn set_modules(&mut self, modules: Vec<(String, Module)>)
        ensures
            final(self).modules matches Some(m) && m == modules,
            final(self).sandbox == old(self).sandbox,
            final(self).max_mem == old(self).max_mem,
            final(self).general_args == old(self).general_args,
    {
        self.modules = Some(modules);
    }

    pub fn modules(&self) -> (r: &Option<Vec<(String, Module)>>)
        ensures
            r == self.modules,
    {
        &self.modules
    }

    pub fn set_general_args(&mut self, general_args: Vec<(String, String)>)
        ensures
            final(self).general_args matches Some(a) && a == general_args,
            final(self).sandbox == old(self).sandbox,
            final(self).max_mem == old(self).max_mem,
            final(self).modules == old(self).modules,
    {
        self.general_args = Some(general_args);
    }

    pub fn general_args(&self) -> (r: &Option<Vec<(String, String)>>)
        ensures
            r == self.general_args,
    {
        &self.general_args
    }
}

#[verifier::external_type_specification]
#[verifier::external_body]
#[verifier::reject_recursive_types(T)]
pub struct ExArena<T>(typed_arena::Arena<T>);

/// Relies on typed_arena::Arena::new: constructs a new, empty arena.
#[verifier::external_body]
fn arena_new() -> typed_arena::Arena<File> {
    typed_arena::Arena::new()
}

/// Relies on typed_arena::Arena::alloc: stores the value in the arena
/// and returns a reference to the stored value.
#[verifier::external_body]
fn arena_alloc<'a>(arena: &'a typed_arena::Arena<File>, f: File) -> (r: &'a File)
    ensures
        *r == f,
{
    arena.alloc(f)
}

/// The state of one compilation run: the arena that owns every file
/// buffer, what the document says of itself, and the extension
/// runtime's configuration.
pub struct Context {
    pub files: typed_arena::Arena<File>,
    pub doc_info: DocInfo,
    pub lua_info: LuaInfo,
    pub modules: Option<Vec<(ModuleName, Module)>>,
}

impl Context {
    pub fn new() -> (r: Context)
        ensures
            r.doc_info.name is None,
            r.doc_info.emblem_version is None,
            r.doc_info.authors is None,
            r.doc_info.keywords is None,
            r.lua_info.sandbox == SandboxLevel::Standard,
            r.lua_info.max_mem is Unlimited,
            r.lua_info.general_args is None,
            r.lua_info.modules is None,
            r.modules is None,
    {
        Context {
            files: arena_new(),
            doc_info: DocInfo {
                name: None,
                emblem_version: None,
                authors: None,
                keywords: None,
            },
            lua_info: LuaInfo {
                sandbox: SandboxLevel::Standard,
                max_mem: ResourceLimit::Unlimited,
                general_args: None,
                modules: None,
            },
            modules: None,
        }
    }

    /// Stores a file's name and content for the lifetime of the run
    /// and hands back a view of the stored file.
    pub fn alloc_file(&mut self, name: String, content: String) -> (r: &File)
        ensures
            r.name == name,
            r.content == content,
    {
        arena_alloc(&self.files, File { name, content })
    }

    pub fn doc_info(&self) -> (r: &DocInfo)
        ensures
            r == self.doc_info,
    {
        &self.doc_info
    }

    pub fn doc_info_mut(&mut self) -> (r: &mut DocInfo)
        ensures
            *r == old(self).doc_info,
            final(self).doc_info == *final(r),
            final(self).lua_info == old(self).lua_info,
            final(self).modules == old(self).modules,
    {
        &mut self.doc_info
    }

    pub fn lua_info(&self) -> (r: &LuaInfo)
        ensures
            r == self.lua_info,
    {
        &self.lua_info
    }

    pub fn lua_info_mut(&mut self) -> (r: &mut LuaInfo)
        ensures
            *r == old(self).lua_info,
            final(self).lua_info == *final(r),
            final(self).doc_info == old(self).doc_info,
            final(self).modules == old(self).modules,
    {
        &mut self.lua_info
    }

    pub fn set_modules(&mut self, modules: Vec<(ModuleName, Module)>)
        ensures
            final(self).modules matches Some(m) && m == modules,
            final(self).doc_info == old(self).doc_info,
            final(self).lua_info == old(self).lua_info,
    {
        self.modules = Some(modules);
    }

    pub fn modules(&self) -> (r: &Option<Vec<(ModuleName, Module)>>)
        ensures
            r == self.modules,
    {
        &self.modules
    }

    pub fn modules_mut(&mut self) -> (r: Option<&mut Vec<(ModuleName, Module)>>)
        ensures
            old(self).modules is Some <==> r is Some,
    {
        self.modules.as_mut()
    }
}

} // verus!
