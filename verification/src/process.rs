//! Processes and their modules, as the operating system describes them, and
//! the choices made among them.

use vstd::prelude::*;

verus! {

/// The operating system's number for a process.
pub type ProcessId = usize;

/// The first address of a module's image and the address behind its last.
pub type ModuleBounds = (usize, usize);

/// An open process. The library carries it and never looks behind it.
#[derive(Clone, Copy, Debug, PartialEq, Eq, Structural)]
pub struct ProcessHandle {
    /// The operating system's value for the handle.
    pub raw: usize,
}

/// One running process.
#[derive(Clone, Debug, PartialEq, Eq)]
pub struct ProcessInfo {
    pub pid: ProcessId,
    pub name: String,
}

/// What the operating system gave for a module's name.
#[derive(Clone, Debug, PartialEq, Eq)]
pub enum ModuleName {
    /// It gave none.
    Unreadable,
    /// It gave bytes that are no text.
    Malformed,
    /// It gave this name.
    Text(String),
}

/// One module in the list of a process's modules.
#[derive(Clone, Debug, PartialEq, Eq)]
pub struct ModuleEntry {
    pub name: ModuleName,
    /// The address of the image's first byte.
    pub base: usize,
    /// The number of bytes of the image, where the system told it.
    pub size: Option<usize>,
}

/// Why a module was not attached to.
#[derive(Clone, Copy, Debug, PartialEq, Eq, Structural)]
pub enum AttachError {
    /// The operating system opened no process for this id.
    ProcessNotOpened { pid: usize },
    /// The name of the module at this place in the list is no text.
    MalformedModuleName { index: usize },
    /// The size of the module at this place in the list is not known.
    UnknownModuleSize { index: usize },
    /// No module of the process bears the name.
    ModuleNotFound,
    /// An image of `size` bytes from `base` on would end behind the last
    /// address.
    ImageTooLarge { base: usize, size: usize },
    /// No byte lies between these bounds.
    InvalidBounds { start: usize, end: usize },
}

/// Takes the operating system's answer to the request to open process `pid`:
/// zero stands for a refusal, every other value is the handle.
pub fn open_process(pid: ProcessId, raw: usize) -> (r: Result<ProcessHandle, AttachError>)
    ensures
        raw != 0 ==> r == Ok::<ProcessHandle, AttachError>(ProcessHandle { raw }),
        raw == 0 ==> r == Err::<ProcessHandle, AttachError>(AttachError::ProcessNotOpened { pid }),
{
    if raw == 0 {
        Err(AttachError::ProcessNotOpened { pid })
    } else {
        Ok(ProcessHandle { raw })
    }
}

/// The items of `items` at the places where `kept` is true, in their order.
pub open spec fn select<T>(items: Seq<T>, kept: Seq<bool>) -> Seq<T>
    recommends
        items.len() == kept.len(),
    decreases items.len(),
{
    if items.len() == 0 || kept.len() == 0 {
        Seq::empty()
    } else if kept.last() {
        select(items.drop_last(), kept.drop_last()).push(items.last())
    } else {
        select(items.drop_last(), kept.drop_last())
    }
}

/// Whether `kept` holds, for each of `processes`, an answer of `filter`.
pub open spec fn answers<F: Fn(&ProcessInfo) -> bool>(
    filter: F,
    processes: Seq<ProcessInfo>,
    kept: Seq<bool>,
) -> bool {
    &&& kept.len() == processes.len()
    &&& forall|i: int|
        0 <= i < processes.len() ==> filter.ensures((&#[trigger] processes[i],), kept[i])
}

/// The processes among `processes` that `filter` accepts, in their order; all
/// of them where there is no filter.
pub fn get_process_list<F>(processes: Vec<ProcessInfo>, filter: Option<F>) -> (r: Vec<
    ProcessInfo,
>) where F: Fn(&ProcessInfo) -> bool
    requires
        filter matches Some(f) ==> forall|i: int|
            0 <= i < processes.len() ==> f.requires((&#[trigger] processes[i],)),
    ensures
        filter is None ==> r@ == processes@,
        filter matches Some(f) ==> exists|kept: Seq<bool>|
            answers(f, processes@, kept) && r@ == select(processes@, kept),
{
    match filter {
        None => processes,
        Some(f) => {
            let ghost all = processes@;
            let ghost mut kept: Seq<bool> = Seq::empty();
            let mut out: Vec<ProcessInfo> = Vec::new();
            for process in iter: processes
                invariant
                    iter.seq() == all,
                    forall|i: int| 0 <= i < all.len() ==> f.requires((&#[trigger] all[i],)),
                    answers(f, all.take(iter.index()), kept),
                    out@ == select(all.take(iter.index()), kept),
            {
                let keep: bool = f(&process);
                proof {
                    let before = all.take(iter.index());
                    let after = all.take(iter.index() + 1);
                    assert(after.drop_last() =~= before);
                    assert(kept.push(keep).drop_last() =~= kept);
                    kept = kept.push(keep);
                }
                if keep {
                    out.push(process);
                }
            }
            proof {
                assert(all.take(all.len() as int) =~= all);
            }
            out
        },
    }
}

/// Whether the search for the module called `name` ends at `entry`: at the
/// module of that name, and at a name that is no text.
pub open spec fn ends_search(entry: ModuleEntry, name: Seq<char>) -> bool {
    match entry.name {
        ModuleName::Unreadable => false,
        ModuleName::Malformed => true,
        ModuleName::Text(text) => text@ == name,
    }
}

/// Whether the search for `name` ends at entry `k` and at none before it.
pub open spec fn is_first_end(modules: Seq<ModuleEntry>, name: Seq<char>, k: int) -> bool {
    &&& 0 <= k < modules.len()
    &&& ends_search(modules[k], name)
    &&& forall|j: int| 0 <= j < k ==> !ends_search(#[trigger] modules[j], name)
}

/// The bounds of an image of `size` bytes whose first byte is at `base`.
pub open spec fn image_bounds(base: usize, size: usize) -> Result<ModuleBounds, AttachError> {
    if base + size <= usize::MAX {
        Ok((base, (base + size) as usize))
    } else {
        Err(AttachError::ImageTooLarge { base, size })
    }
}

/// What the search gives when it ends at `entry`, the entry at `index`.
pub open spec fn entry_bounds(entry: ModuleEntry, index: int) -> Result<ModuleBounds, AttachError> {
    match entry.name {
        ModuleName::Text(_) => match entry.size {
            Some(size) => image_bounds(entry.base, size),
            None => Err(AttachError::UnknownModuleSize { index: index as usize }),
        },
        _ => Err(AttachError::MalformedModuleName { index: index as usize }),
    }
}

/// The bounds of the first module called `name`. Modules without a name are
/// passed over; a name that is no text, met before the module is found, ends
/// the search with an error.
pub open spec fn resolve_bounds(modules: Seq<ModuleEntry>, name: Seq<char>) -> Result<
    ModuleBounds,
    AttachError,
> {
    if exists|k: int| 0 <= k < modules.len() && ends_search(#[trigger] modules[k], name) {
        let k = choose|k: int| is_first_end(modules, name, k);
        entry_bounds(modules[k], k)
    } else {
        Err(AttachError::ModuleNotFound)
    }
}

/// Looks through the modules of a process, in the order of the list, for the
/// one called `module_name`, and gives the bounds of its image.
pub fn get_module_bounds(modules: &Vec<ModuleEntry>, module_name: &str) -> (r: Result<
    ModuleBounds,
    AttachError,
>)
    ensures
        r == resolve_bounds(modules@, module_name@),
{
    let wanted: String = module_name.to_owned();
    let mut index: usize = 0;
    while index < modules.len()
        invariant
            index <= modules.len(),
            wanted@ == module_name@,
            forall|j: int| 0 <= j < index ==> !ends_search(#[trigger] modules@[j], module_name@),
        decreases modules.len() - index,
    {
        let entry = &modules[index];
        let found: Option<Result<ModuleBounds, AttachError>> = match &entry.name {
            ModuleName::Unreadable => None,
            ModuleName::Malformed => Some(Err(AttachError::MalformedModuleName { index })),
            ModuleName::Text(text) => {
                if *text == wanted {
                    match entry.size {
                        Some(size) => {
                            if size <= usize::MAX - entry.base {
                                Some(Ok((entry.base, entry.base + size)))
                            } else {
                                Some(Err(AttachError::ImageTooLarge { base: entry.base, size }))
                            }
                        },
                        None => Some(Err(AttachError::UnknownModuleSize { index })),
                    }
                } else {
                    None
                }
            },
        };
        match found {
            Some(outcome) => {
                proof {
                    let k = index as int;
                    assert(is_first_end(modules@, module_name@, k));
                    let chosen = choose|c: int| is_first_end(modules@, module_name@, c);
                    if chosen < k {
                        assert(!ends_search(modules@[chosen], module_name@));
                    }
                    if k < chosen {
                        assert(!ends_search(modules@[k], module_name@));
                    }
                }
                return outcome;
            },
            None => {},
        }
        index += 1;
    }
    Err(AttachError::ModuleNotFound)
}

} // verus!
