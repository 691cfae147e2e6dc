//! Where things lie in the game's memory: finding a loaded module among
//! the process's memory regions, and the address arithmetic from module
//! bases, the client state and entity pointers to the values read.
use vstd::prelude::*;
use crate::signatures::{
    CLIENT_STATE_ADJUST, ENTITY_LIST, ENTITY_LIST_STRIDE,
};

verus! {

/// Access rights of a memory region.
#[derive(Clone, Copy)]
pub struct Permissions {
    pub read: bool,
    pub write: bool,
    pub execute: bool,
}

/// One mapped region of a process's memory: its start address, its size,
/// the file mapped there (if any) and its access rights.
pub struct MapRegion {
    pub start: usize,
    pub size: usize,
    pub filename: Option<String>,
    pub read: bool,
    pub write: bool,
    pub execute: bool,
}

/// Whether the path `path`, taken as a sequence of components, ends with
/// the components of `child`, as `std::path::Path::ends_with` decides.
pub uninterp spec fn path_ends_with(path: Seq<char>, child: Seq<char>) -> bool;

/// Wraps `std::path::Path::ends_with`, which compares whole path
/// components; nothing more of it is stated.
#[verifier::external_body]
fn path_has_suffix(path: &str, child: &str) -> (res: bool)
    ensures
        res == path_ends_with(path@, child@),
{
    std::path::Path::new(path).ends_with(child)
}

/// Whether `r`'s access rights are exactly `p`.
pub open spec fn has_permissions(r: MapRegion, p: Permissions) -> bool {
    r.read == p.read && r.write == p.write && r.execute == p.execute
}

/// Whether `r` is chosen, given whether its file is the module (`named`)
/// and the rights asked for, if any.
pub open spec fn is_chosen(r: MapRegion, named: bool, perms: Option<Permissions>) -> bool {
    &&& named
    &&& perms matches Some(p) ==> has_permissions(r, p)
}

/// Whether region `k` of `regions` is the first one chosen, `named[j]`
/// telling whether the file of region `j` is the module.
pub open spec fn is_first_chosen(
    regions: Seq<MapRegion>,
    named: Seq<bool>,
    perms: Option<Permissions>,
    k: int,
) -> bool {
    &&& 0 <= k < regions.len()
    &&& is_chosen(regions[k], named[k], perms)
    &&& forall|j: int| 0 <= j < k ==> !is_chosen(#[trigger] regions[j], named[j], perms)
}

/// Whether the file mapped in `r` is the module `module`.
pub open spec fn maps_module(r: MapRegion, module: Seq<char>) -> bool {
    r.filename matches Some(f) && path_ends_with(f@, module)
}

/// Which regions map the module `module`.
pub open spec fn module_flags(regions: Seq<MapRegion>, module: Seq<char>) -> Seq<bool> {
    regions.map_values(|r: MapRegion| maps_module(r, module))
}

/// Whether `res` is the address range `(start, start + size)` of the first
/// region that `named` and `perms` choose, or `None` when none is chosen.
pub open spec fn is_module_range(
    regions: Seq<MapRegion>,
    named: Seq<bool>,
    perms: Option<Permissions>,
    res: Option<(usize, usize)>,
) -> bool {
    match res {
        None => forall|k: int|
            0 <= k < regions.len() ==> !is_chosen(#[trigger] regions[k], named[k], perms),
        Some(_) => exists|k: int|
            is_first_chosen(regions, named, perms, k) && starts_and_ends(res, regions[k]),
    }
}

/// The address range of the first region of `regions` that is chosen,
/// `named[k]` telling whether region `k` maps the module and `perms`
/// giving the rights asked for (any, when `None`). The end of the chosen
/// region must be an address.
pub fn pick_region(
    regions: &Vec<MapRegion>,
    named: &Vec<bool>,
    perms: Option<Permissions>,
) -> (res: Option<(usize, usize)>)
    requires
        named@.len() == regions@.len(),
        forall|k: int|
            is_first_chosen(regions@, named@, perms, k) ==> regions@[k].start + regions@[k].size
                <= usize::MAX,
    ensures
        is_module_range(regions@, named@, perms, res),
{
    let mut k: usize = 0;
    while k < regions.len()
        invariant
            named@.len() == regions@.len(),
            k <= regions@.len(),
            forall|j: int| 0 <= j < k ==> !is_chosen(#[trigger] regions@[j], named@[j], perms),
            forall|j: int|
                is_first_chosen(regions@, named@, perms, j) ==> regions@[j].start
                    + regions@[j].size <= usize::MAX,
        decreases regions@.len() - k,
    {
        let r = &regions[k];
        let chosen = named[k] && match perms {
            Some(p) => r.read == p.read && r.write == p.write && r.execute == p.execute,
            None => true,
        };
        if chosen {
            assert(is_first_chosen(regions@, named@, perms, k as int));
            return Some((r.start, r.start + r.size));
        }
        k = k + 1;
    }
    None
}

/// The address range of the module `module` in a process whose memory
/// regions are `regions`: that of the first region whose file is the
/// module (its path ends with `module`, component by component) and whose
/// rights are `perms` when given; `None` if there is no such region. Each
/// region must end at an address, as the regions of a process do.
pub fn get_module_address(regions: &Vec<MapRegion>, module: &str, perms: Option<Permissions>) -> (res:
    Option<(usize, usize)>)
    requires
        forall|k: int|
            0 <= k < regions@.len() ==> #[trigger] regions@[k].start + regions@[k].size
                <= usize::MAX,
    ensures
        is_module_range(regions@, module_flags(regions@, module@), perms, res),
{
    let mut named: Vec<bool> = Vec::new();
    let mut k: usize = 0;
    while k < regions.len()
        invariant
            k <= regions@.len(),
            named@ == module_flags(regions@, module@).take(k as int),
        decreases regions@.len() - k,
    {
        let flag = match &regions[k].filename {
            Some(f) => path_has_suffix(f.as_str(), module),
            None => false,
        };
        named.push(flag);
        k = k + 1;
        assert(named@ =~= module_flags(regions@, module@).take(k as int));
    }
    assert(named@ =~= module_flags(regions@, module@));
    pick_region(regions, &named, perms)
}

/// What a found range means: it is the range of a region that maps the
/// module and, when rights are asked for, has exactly those rights, and no
/// earlier region is such a region; when nothing is found, no region is.
pub proof fn lemma_module_range_meaning(
    regions: Seq<MapRegion>,
    named: Seq<bool>,
    perms: Option<Permissions>,
    res: Option<(usize, usize)>,
)
    requires
        is_module_range(regions, named, perms, res),
    ensures
        res is None ==> forall|k: int|
            0 <= k < regions.len() && #[trigger] named[k] ==> (perms matches Some(p) && !(
            regions[k].read == p.read && regions[k].write == p.write && regions[k].execute
                == p.execute)),
        res matches Some((start, end)) ==> exists|k: int|
            #![trigger regions[k]]
            0 <= k < regions.len() && named[k] && start == regions[k].start && end
                == regions[k].start + regions[k].size && (perms matches Some(p) ==> (
            regions[k].read == p.read && regions[k].write == p.write && regions[k].execute
                == p.execute)) && forall|j: int|
                0 <= j < k && #[trigger] named[j] ==> (perms matches Some(p) && !(regions[j].read
                    == p.read && regions[j].write == p.write && regions[j].execute == p.execute)),
{
    if res is Some {
        let k = choose|k: int| is_first_chosen(regions, named, perms, k) && starts_and_ends(res, regions[k]);
        assert forall|j: int| 0 <= j < k && #[trigger] named[j] implies (perms matches Some(p) && !(
            regions[j].read == p.read && regions[j].write == p.write && regions[j].execute
                == p.execute)) by {
            assert(!is_chosen(regions[j], named[j], perms));
        }
        assert(regions[k] == regions[k]);
    } else {
        assert forall|k: int| 0 <= k < regions.len() && #[trigger] named[k] implies (perms matches Some(
            p,
        ) && !(regions[k].read == p.read && regions[k].write == p.write && regions[k].execute
            == p.execute)) by {
            assert(!is_chosen(regions[k], named[k], perms));
        }
    }
}

/// Whether `range` is the address range of region `r`.
pub open spec fn starts_and_ends(range: Option<(usize, usize)>, r: MapRegion) -> bool {
    range matches Some((start, end)) && start == r.start && end == r.start + r.size
}

/// Asking for access rights can only move the choice later: the region
/// chosen with rights `p` is never before the one chosen without rights,
/// a region is found without rights whenever one is found with them, and
/// both lookups agree when the first region of the module has rights `p`.
pub proof fn lemma_rights_narrow_choice(
    regions: Seq<MapRegion>,
    named: Seq<bool>,
    p: Permissions,
    any: Option<(usize, usize)>,
    with_rights: Option<(usize, usize)>,
)
    requires
        named.len() == regions.len(),
        is_module_range(regions, named, None, any),
        is_module_range(regions, named, Some(p), with_rights),
    ensures
        with_rights is Some ==> any is Some,
        forall|k1: int, k2: int|
            is_first_chosen(regions, named, None, k1) && is_first_chosen(regions, named, Some(p), k2)
                ==> k1 <= k2,
        forall|k: int|
            is_first_chosen(regions, named, None, k) && has_permissions(regions[k], p) ==> any
                == with_rights,
{
    assert forall|k1: int, k2: int|
        is_first_chosen(regions, named, None, k1) && is_first_chosen(
            regions,
            named,
            Some(p),
            k2,
        ) implies k1 <= k2 by {
        if k2 < k1 {
            assert(!is_chosen(regions[k2], named[k2], None));
        }
    }
    if with_rights is Some {
        let k2 = choose|k: int|
            is_first_chosen(regions, named, Some(p), k) && starts_and_ends(with_rights, regions[k]);
        assert(is_chosen(regions[k2], named[k2], None));
    }
    assert forall|k: int|
        is_first_chosen(regions, named, None, k) && has_permissions(regions[k], p) implies any
        == with_rights by {
        assert(is_first_chosen(regions, named, Some(p), k));
        if any is None {
            assert(!is_chosen(regions[k], named[k], None));
        }
        if with_rights is None {
            assert(!is_chosen(regions[k], named[k], Some(p)));
        }
        let k1 = choose|j: int|
            is_first_chosen(regions, named, None, j) && starts_and_ends(any, regions[j]);
        let k2 = choose|j: int|
            is_first_chosen(regions, named, Some(p), j) && starts_and_ends(with_rights, regions[j]);
        if k1 < k {
            assert(!is_chosen(regions[k1], named[k1], None));
        }
        if k < k1 {
            assert(!is_chosen(regions[k], named[k], None));
        }
        if k2 < k {
            assert(!is_chosen(regions[k2], named[k2], Some(p)));
        }
        if k < k2 {
            assert(!is_chosen(regions[k], named[k], Some(p)));
        }
    }
}

/// `base + offset`, or `None` if that is not an address.
pub fn offset_address(base: usize, offset: usize) -> (res: Option<usize>)
    ensures
        res == (if base + offset <= usize::MAX {
            Some((base + offset) as usize)
        } else {
            None
        }),
{
    base.checked_add(offset)
}

/// `ptr + offset`, where `ptr` is a pointer read from memory as a `u64`
/// (taken as a `usize`, as the game is a 64-bit process), or `None` if the
/// sum is not an address.
pub fn pointer_field(ptr: u64, offset: usize) -> (res: Option<usize>)
    ensures
        res == (if (ptr as usize) + offset <= usize::MAX {
            Some(((ptr as usize) + offset) as usize)
        } else {
            None
        }),
{
    offset_address(ptr as usize, offset)
}

/// The bases that the radar reads from: the start of the engine module,
/// the start of the client module, and the client state.
pub struct ModuleBases {
    pub engine_start: usize,
    pub client_start: usize,
    pub client_state: usize,
}

impl ModuleBases {
    /// The bases, given the two module starts and the pointer read at
    /// `DW_CLIENT_STATE` in the engine module; `None` if the client state's
    /// address is not an address.
    pub fn new(engine_start: usize, client_start: usize, client_state_ptr: u32) -> (res: Option<
        ModuleBases,
    >)
        ensures
            match res {
                Some(b) => client_state_ptr + CLIENT_STATE_ADJUST <= usize::MAX && b.engine_start
                    == engine_start && b.client_start == client_start && b.client_state
                    == client_state_ptr + CLIENT_STATE_ADJUST,
                None => client_state_ptr + CLIENT_STATE_ADJUST > usize::MAX,
            },
    {
        match offset_address(client_state_ptr as usize, CLIENT_STATE_ADJUST) {
            Some(client_state) => Some(ModuleBases { engine_start, client_start, client_state }),
            None => None,
        }
    }

    /// Address of `offset` into the engine module.
    pub fn engine(&self, offset: usize) -> (res: Option<usize>)
        ensures
            res == (if self.engine_start + offset <= usize::MAX {
                Some((self.engine_start + offset) as usize)
            } else {
                None
            }),
    {
        offset_address(self.engine_start, offset)
    }

    /// Address of `offset` into the client module.
    pub fn client(&self, offset: usize) -> (res: Option<usize>)
        ensures
            res == (if self.client_start + offset <= usize::MAX {
                Some((self.client_start + offset) as usize)
            } else {
                None
            }),
    {
        offset_address(self.client_start, offset)
    }

    /// Address of `offset` into the client state.
    pub fn client_state(&self, offset: usize) -> (res: Option<usize>)
        ensures
            res == (if self.client_state + offset <= usize::MAX {
                Some((self.client_state + offset) as usize)
            } else {
                None
            }),
    {
        offset_address(self.client_state, offset)
    }

    /// Address of slot `i` of the entity list, in the client module; `None`
    /// if the slot's offset overflows a `u32` or the address is not one.
    pub fn entity_slot(&self, i: u32) -> (res: Option<usize>)
        ensures
            res == (if i * ENTITY_LIST_STRIDE <= u32::MAX && self.client_start + ENTITY_LIST + i
                * ENTITY_LIST_STRIDE <= usize::MAX {
                Some((self.client_start + ENTITY_LIST + i * ENTITY_LIST_STRIDE) as usize)
            } else {
                None
            }),
    {
        match i.checked_mul(ENTITY_LIST_STRIDE) {
            Some(step) => match offset_address(ENTITY_LIST, step as usize) {
                Some(offset) => self.client(offset),
                None => None,
            },
            None => None,
        }
    }
}

} // verus!
