//! The `PeLoader` trait: the only coupling between the PE loader and the
//! environment an image is loaded into (an emulator, a sandbox, a process
//! image builder, ...).
use vstd::prelude::*;

verus! {

/// One call made on a [`PeLoader`], with the arguments it was given and the
/// answer it returned.
pub enum LoaderCall {
    WriteBytes { addr: u64, data: Seq<u8>, ok: bool },
    WriteDword { addr: u64, val: u32, ok: bool },
    WriteQword { addr: u64, val: u64, ok: bool },
    LoadLibrary { libname: Seq<char>, base: u64 },
    ResolveApiName { name: Seq<char>, addr: u64 },
    ResolveApiNameInModule { module: Seq<char>, name: Seq<char>, addr: u64 },
    SearchApiName { name: Seq<char>, addr: u64, dll: Seq<char>, func: Seq<char> },
}

/// The answer recorded in `e`: the base a library load returned, or the
/// address a lookup returned (zero for every other call).
pub open spec fn answer_of(e: LoaderCall) -> u64 {
    match e {
        LoaderCall::LoadLibrary { base, .. } => base,
        LoaderCall::ResolveApiName { addr, .. } => addr,
        LoaderCall::ResolveApiNameInModule { addr, .. } => addr,
        _ => 0,
    }
}

/// `e` is a `load_library(libname)` call.
pub open spec fn is_load(e: LoaderCall, libname: Seq<char>) -> bool {
    e matches LoaderCall::LoadLibrary { libname: l, .. } && l == libname
}

/// `e` is a `resolve_api_name(name)` call.
pub open spec fn is_resolve(e: LoaderCall, name: Seq<char>) -> bool {
    e matches LoaderCall::ResolveApiName { name: n, .. } && n == name
}

/// `e` is a `resolve_api_name_in_module(module, name)` call.
pub open spec fn is_resolve_in(e: LoaderCall, module: Seq<char>, name: Seq<char>) -> bool {
    e matches LoaderCall::ResolveApiNameInModule { module: m, name: n, .. } && m == module && n == name
}

/// `e` is a `write_dword(addr, val)` call.
pub open spec fn is_write_dword(e: LoaderCall, addr: u64, val: u32) -> bool {
    e matches LoaderCall::WriteDword { addr: a, val: v, .. } && a == addr && v == val
}

/// `e` is a `write_qword(addr, val)` call.
pub open spec fn is_write_qword(e: LoaderCall, addr: u64, val: u64) -> bool {
    e matches LoaderCall::WriteQword { addr: a, val: v, .. } && a == addr && v == val
}

/// Where import binding stands after some of its steps: the resolve cache
/// (`dll!function` keys, lower-cased), the import-name table, the index of the
/// next loader call in the call history, and whether every call so far was the
/// one binding had to make.
#[verifier::reject_recursive_types(K)]
pub struct BindState<K> {
    pub cache: Seq<(Seq<char>, u64)>,
    pub names: Map<K, Seq<char>>,
    pub u: int,
    pub ok: bool,
}

/// A binding state with no call out of place: the cache `cache`, the table
/// `names`, and the next loader call at index `u`.
pub open spec fn bind_from<K>(cache: Seq<(Seq<char>, u64)>, names: Map<K, Seq<char>>, u: int) -> BindState<K> {
    BindState { cache, names, u, ok: true }
}

/// The state binding starts from: an empty cache, the table `names`, and the
/// next loader call at index `u`.
pub open spec fn bind_start<K>(names: Map<K, Seq<char>>, u: int) -> BindState<K> {
    bind_from(Seq::empty(), names, u)
}

/// An import-name table with each recorded string taken by its characters.
pub open spec fn names_view<K>(m: Map<K, String>) -> Map<K, Seq<char>> {
    m.map_values(|s: String| s@)
}

/// A prefix of a prefix of a call history is a prefix of it.
pub proof fn lemma_prefix_trans(a: Seq<LoaderCall>, b: Seq<LoaderCall>, c: Seq<LoaderCall>)
    requires
        a.is_prefix_of(b),
        b.is_prefix_of(c),
    ensures
        a.is_prefix_of(c),
{
    assert(a =~= c.subrange(0, a.len() as int)) by {
        assert forall|i: int| 0 <= i < a.len() implies a[i] == c[i] by {
            assert(a[i] == b.subrange(0, a.len() as int)[i]);
            assert(b[i] == c.subrange(0, b.len() as int)[i]);
        }
    }
}

/// A call history and one it is a prefix of agree on its calls.
pub proof fn lemma_prefix_index(a: Seq<LoaderCall>, b: Seq<LoaderCall>, i: int)
    requires
        a.is_prefix_of(b),
        0 <= i < a.len(),
    ensures
        b[i] == a[i],
{
    assert(a[i] == b.subrange(0, a.len() as int)[i]);
}

/// Environment a PE is mapped and bound into. The loader decides *what* to
/// patch and *which* imports to resolve; the implementor decides *how* to touch
/// guest memory and *how* to resolve an export.
///
/// The contracts below say only that every call is appended, with its
/// arguments and its answer, to the implementor's call history [`calls`];
/// they say nothing of what the answers are.
///
/// [`calls`]: PeLoader::calls
pub trait PeLoader {
    /// The calls made on this loader so far, oldest first.
    spec fn calls(&self) -> Seq<LoaderCall>;

    /// Is `addr` backed by mapped guest memory?
    fn is_mapped(&self, addr: u64) -> bool;

    /// Write a section's bytes into guest memory at `addr`.
    fn write_bytes(&mut self, addr: u64, data: &[u8]) -> (ok: bool)
        ensures
            final(self).calls() == old(self).calls().push(
                LoaderCall::WriteBytes { addr, data: data@, ok },
            ),
    ;

    /// Patch a 32-bit slot (IAT entry / 32-bit relocation).
    fn write_dword(&mut self, addr: u64, val: u32) -> (ok: bool)
        ensures
            final(self).calls() == old(self).calls().push(LoaderCall::WriteDword { addr, val, ok }),
    ;

    /// Patch a 64-bit slot (IAT entry / ADDR64 relocation).
    fn write_qword(&mut self, addr: u64, val: u64) -> (ok: bool)
        ensures
            final(self).calls() == old(self).calls().push(LoaderCall::WriteQword { addr, val, ok }),
    ;

    /// Load a dependency by name; its image base, or 0 if it could not be loaded.
    fn load_library(&mut self, libname: &str) -> (base: u64)
        ensures
            final(self).calls() == old(self).calls().push(
                LoaderCall::LoadLibrary { libname: libname@, base },
            ),
    ;

    /// Resolve an exported function by name across loaded modules (0: not found).
    fn resolve_api_name(&mut self, name: &str) -> (addr: u64)
        ensures
            final(self).calls() == old(self).calls().push(
                LoaderCall::ResolveApiName { name: name@, addr },
            ),
    ;

    /// Resolve an exported function by name within one module (0: not found).
    fn resolve_api_name_in_module(&mut self, module: &str, name: &str) -> (addr: u64)
        ensures
            final(self).calls() == old(self).calls().push(
                LoaderCall::ResolveApiNameInModule { module: module@, name: name@, addr },
            ),
    ;

    /// Best-effort search for a function by name; returns `(addr, dll, name)`.
    fn search_api_name(&mut self, name: &str) -> (r: (u64, String, String))
        ensures
            final(self).calls() == old(self).calls().push(
                LoaderCall::SearchApiName { name: name@, addr: r.0, dll: r.1@, func: r.2@ },
            ),
    ;
}

} // verus!
