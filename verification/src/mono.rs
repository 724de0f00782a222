//! The mono runtime of the target: where its DLL is, and where the functions in use are.

use crate::pe::{exports_of, names_in_file, parse_exports};
use crate::text::{eq_ignore_ascii_case, law_same_letters_by_places, same_letters};
use crate::win32::ModuleInfo;
use vstd::hash_map::StringHashMap;
use vstd::prelude::*;
use vstd::string::*;

verus! {

/// The mono.dll of the target process, with the exports of the file on disk.
pub struct MonoApi {
    pub base: u64,
    pub dll_path: String,
    pub exports: StringHashMap<u32>,
}

/// Whether a module is mono.dll by its name.
pub open spec fn is_mono(m: ModuleInfo) -> bool {
    same_letters(m.name@, "mono.dll"@)
}

/// The message that a function is not exported.
pub open spec fn missing_text(name: Seq<char>) -> Seq<char> {
    "mono.dll 没有导出 "@ + name
}

/// Finds mono.dll, the first module of that name in any case, in the target's module list.
pub fn find_mono(modules: &Vec<ModuleInfo>) -> (r: Result<usize, String>)
    ensures
        match r {
            Ok(i) => i < modules@.len() && is_mono(modules@[i as int]) && forall|j: int|
                0 <= j < i ==> !is_mono(#[trigger] modules@[j]),
            Err(m) => (forall|j: int| 0 <= j < modules@.len() ==> !is_mono(#[trigger] modules@[j]))
                && m@ == "目标进程里没有加载 mono.dll——这个游戏可能不是 Mono 版 Unity"@,
        },
{
    let mut i: usize = 0;
    while i < modules.len()
        invariant
            i <= modules.len(),
            forall|j: int| 0 <= j < i ==> !is_mono(#[trigger] modules@[j]),
        decreases modules.len() - i,
    {
        if eq_ignore_ascii_case(modules[i].name.as_str(), "mono.dll") {
            return Ok(i);
        }
        i = i + 1;
    }
    Err("目标进程里没有加载 mono.dll——这个游戏可能不是 Mono 版 Unity".to_owned())
}

impl MonoApi {
    /// The RVAs of the exported functions by their names.
    pub open spec fn rvas(&self) -> Map<Seq<char>, u32> {
        self.exports@
    }

    /// Whether the address of an exported function fits 64 bits.
    pub open spec fn fits(&self, name: Seq<char>) -> bool {
        self.rvas().contains_key(name) ==> self.base + self.rvas()[name] <= u64::MAX
    }

    /// Takes the module found in the target, and what reading its file gave.
    ///
    /// The exports come from the file rather than from a table of addresses: an RVA does not
    /// depend on the load address, but it changes with every new mono.dll.
    pub fn locate(module: &ModuleInfo, file: Result<Vec<u8>, String>) -> (r: Result<Self, String>)
        requires
            file matches Ok(data) ==> names_in_file(data@),
        ensures
            match (r, file) {
                (Err(m), Err(e)) => m@ == "读取 "@ + module.path@ + " 失败："@ + e@,
                (Ok(_), Err(_)) => false,
                (Ok(api), Ok(data)) => exports_of(data@) == Ok::<Map<Seq<char>, u32>, Seq<char>>(
                    api.rvas(),
                ) && api.base == module.base && api.dll_path@ == module.path@,
                (Err(m), Ok(data)) => exports_of(data@) == Err::<Map<Seq<char>, u32>, Seq<char>>(
                    m@,
                ),
            },
    {
        match file {
            Err(e) => Err(
                "读取 ".to_owned().concat(module.path.as_str()).concat(" 失败：").concat(
                    e.as_str(),
                ),
            ),
            Ok(data) => match parse_exports(data.as_slice()) {
                Err(e) => Err(e),
                Ok(exports) => Ok(
                    MonoApi { base: module.base, dll_path: module.path.clone(), exports },
                ),
            },
        }
    }

    /// Tells whether the address of an export fits 64 bits, as `addr` needs it.
    pub fn addr_fits(&self, name: &str) -> (r: bool)
        ensures
            r == self.fits(name@),
    {
        match self.exports.get(name) {
            Some(rva) => *rva as u64 <= u64::MAX - self.base,
            None => true,
        }
    }

    /// The address of an exported function in the target process.
    pub fn addr(&self, name: &str) -> (r: Result<u64, String>)
        requires
            self.fits(name@),
        ensures
            match r {
                Ok(a) => self.rvas().contains_key(name@) && a == self.base + self.rvas()[name@],
                Err(m) => !self.rvas().contains_key(name@) && m@ == missing_text(name@),
            },
    {
        match self.exports.get(name) {
            Some(rva) => Ok(self.base + *rva as u64),
            None => Err("mono.dll 没有导出 ".to_owned().concat(name)),
        }
    }
}

/// Addresses, in the target process, of the mono functions in use.
///
/// All of them only query metadata. Once the address of the counter is known, reading and
/// writing is done from outside, and no game logic runs on a foreign thread.
#[derive(Clone, Copy)]
pub struct MonoFunctions {
    pub get_root_domain: u64,
    pub thread_attach: u64,
    pub thread_detach: u64,
    pub image_loaded: u64,
    pub class_from_name: u64,
    pub class_get_field_from_name: u64,
    pub field_get_offset: u64,
    pub class_vtable: u64,
    pub vtable_get_static_field_data: u64,
}

/// The names under which mono.dll exports the functions in use, in the order of the fields.
pub open spec fn mono_name(i: int) -> Seq<char> {
    if i == 0 {
        "mono_get_root_domain"@
    } else if i == 1 {
        "mono_thread_attach"@
    } else if i == 2 {
        "mono_thread_detach"@
    } else if i == 3 {
        "mono_image_loaded"@
    } else if i == 4 {
        "mono_class_from_name"@
    } else if i == 5 {
        "mono_class_get_field_from_name"@
    } else if i == 6 {
        "mono_field_get_offset"@
    } else if i == 7 {
        "mono_class_vtable"@
    } else {
        "mono_vtable_get_static_field_data"@
    }
}

/// Whether the first `n` functions in use are exported.
pub open spec fn has_first(api: MonoApi, n: int) -> bool {
    forall|j: int| 0 <= j < n ==> api.rvas().contains_key(#[trigger] mono_name(j))
}

/// Whether every address that gets computed on the way to the first missing function fits.
pub open spec fn all_fit(api: MonoApi) -> bool {
    forall|i: int| 0 <= i < 9 && has_first(api, i) ==> api.fits(#[trigger] mono_name(i))
}

impl MonoFunctions {
    /// The fields in their order.
    pub open spec fn field(self, i: int) -> u64 {
        if i == 0 {
            self.get_root_domain
        } else if i == 1 {
            self.thread_attach
        } else if i == 2 {
            self.thread_detach
        } else if i == 3 {
            self.image_loaded
        } else if i == 4 {
            self.class_from_name
        } else if i == 5 {
            self.class_get_field_from_name
        } else if i == 6 {
            self.field_get_offset
        } else if i == 7 {
            self.class_vtable
        } else {
            self.vtable_get_static_field_data
        }
    }

    /// Whether each address is that of the function that it is named after.
    pub open spec fn stand_for(self, api: MonoApi) -> bool {
        let at = |name: Seq<char>| api.base + api.rvas()[name];
        &&& self.get_root_domain == at("mono_get_root_domain"@)
        &&& self.thread_attach == at("mono_thread_attach"@)
        &&& self.thread_detach == at("mono_thread_detach"@)
        &&& self.image_loaded == at("mono_image_loaded"@)
        &&& self.class_from_name == at("mono_class_from_name"@)
        &&& self.class_get_field_from_name == at("mono_class_get_field_from_name"@)
        &&& self.field_get_offset == at("mono_field_get_offset"@)
        &&& self.class_vtable == at("mono_class_vtable"@)
        &&& self.vtable_get_static_field_data == at("mono_vtable_get_static_field_data"@)
    }

    /// `mono_name`, executable.
    fn name(i: usize) -> (r: &'static str)
        requires
            i < 9,
        ensures
            r@ == mono_name(i as int),
    {
        if i == 0 {
            "mono_get_root_domain"
        } else if i == 1 {
            "mono_thread_attach"
        } else if i == 2 {
            "mono_thread_detach"
        } else if i == 3 {
            "mono_image_loaded"
        } else if i == 4 {
            "mono_class_from_name"
        } else if i == 5 {
            "mono_class_get_field_from_name"
        } else if i == 6 {
            "mono_field_get_offset"
        } else if i == 7 {
            "mono_class_vtable"
        } else {
            "mono_vtable_get_static_field_data"
        }
    }

    /// Tells whether the addresses fit 64 bits, as `resolve` needs it.
    pub fn addresses_fit(api: &MonoApi) -> (r: bool)
        ensures
            r == all_fit(*api),
    {
        let mut i: usize = 0;
        while i < 9
            invariant
                i <= 9,
                has_first(*api, i as int),
                forall|j: int| 0 <= j < i ==> api.fits(#[trigger] mono_name(j)),
            decreases 9 - i,
        {
            let name: &str = Self::name(i);
            if !api.addr_fits(name) {
                proof {
                    assert(!api.fits(mono_name(i as int)));
                }
                return false;
            }
            if api.exports.get(name).is_none() {
                proof {
                    assert forall|k: int| 0 <= k < 9 && has_first(*api, k) implies api.fits(
                        #[trigger] mono_name(k),
                    ) by {
                        if k > i {
                            assert(api.rvas().contains_key(mono_name(i as int)));
                        }
                    }
                }
                return true;
            }
            i = i + 1;
        }
        true
    }

    /// The address of the `i`-th function in use.
    fn find(api: &MonoApi, i: usize) -> (r: Result<u64, String>)
        requires
            i < 9,
            has_first(*api, i as int),
            all_fit(*api),
        ensures
            match r {
                Ok(a) => has_first(*api, i + 1) && a == api.base + api.rvas()[mono_name(i as int)],
                Err(m) => !api.rvas().contains_key(mono_name(i as int)) && m@ == missing_text(
                    mono_name(i as int),
                ),
            },
    {
        assert(api.fits(mono_name(i as int)));
        api.addr(Self::name(i))
    }

    /// Finds the addresses of all functions in use; the first one that mono.dll does not
    /// export is the error.
    pub fn resolve(api: &MonoApi) -> (r: Result<Self, String>)
        requires
            all_fit(*api),
        ensures
            match r {
                Ok(f) => has_first(*api, 9) && forall|i: int|
                    0 <= i < 9 ==> f.field(i) == api.base + api.rvas()[#[trigger] mono_name(i)],
                Err(m) => exists|i: int|
                    0 <= i < 9 && has_first(*api, i) && !api.rvas().contains_key(
                        #[trigger] mono_name(i),
                    ) && m@ == missing_text(mono_name(i)),
            },
            r matches Ok(f) ==> f.stand_for(*api),
    {
        let get_root_domain: u64 = Self::find(api, 0)?;
        let thread_attach: u64 = Self::find(api, 1)?;
        let thread_detach: u64 = Self::find(api, 2)?;
        let image_loaded: u64 = Self::find(api, 3)?;
        let class_from_name: u64 = Self::find(api, 4)?;
        let class_get_field_from_name: u64 = Self::find(api, 5)?;
        let field_get_offset: u64 = Self::find(api, 6)?;
        let class_vtable: u64 = Self::find(api, 7)?;
        let vtable_get_static_field_data: u64 = Self::find(api, 8)?;
        Ok(
            MonoFunctions {
                get_root_domain,
                thread_attach,
                thread_detach,
                image_loaded,
                class_from_name,
                class_get_field_from_name,
                field_get_offset,
                class_vtable,
                vtable_get_static_field_data,
            },
        )
    }
}

/// The functions that are resolved are those that the fields are named after, each at its RVA
/// behind the base of mono.dll.
pub proof fn law_functions_stand_for_their_names(api: MonoApi, f: MonoFunctions)
    requires
        forall|i: int| 0 <= i < 9 ==> f.field(i) == api.base + api.rvas()[#[trigger] mono_name(i)],
    ensures
        f.stand_for(api),
{
    assert(f.field(0) == api.base + api.rvas()[mono_name(0)]);
    assert(f.field(1) == api.base + api.rvas()[mono_name(1)]);
    assert(f.field(2) == api.base + api.rvas()[mono_name(2)]);
    assert(f.field(3) == api.base + api.rvas()[mono_name(3)]);
    assert(f.field(4) == api.base + api.rvas()[mono_name(4)]);
    assert(f.field(5) == api.base + api.rvas()[mono_name(5)]);
    assert(f.field(6) == api.base + api.rvas()[mono_name(6)]);
    assert(f.field(7) == api.base + api.rvas()[mono_name(7)]);
    assert(f.field(8) == api.base + api.rvas()[mono_name(8)]);
}

/// A module is mono.dll by its name, but for the case of its letters; nothing else is.
pub proof fn law_mono_goes_by_its_name(m: ModuleInfo)
    ensures
        is_mono(m) <==> {
            let n = m.name@;
            &&& n.len() == 8
            &&& n[0] == 'm' || n[0] == 'M'
            &&& n[1] == 'o' || n[1] == 'O'
            &&& n[2] == 'n' || n[2] == 'N'
            &&& n[3] == 'o' || n[3] == 'O'
            &&& n[4] == '.'
            &&& n[5] == 'd' || n[5] == 'D'
            &&& n[6] == 'l' || n[6] == 'L'
            &&& n[7] == 'l' || n[7] == 'L'
        },
{
    reveal_strlit("mono.dll");
    law_same_letters_by_places(m.name@, "mono.dll"@);
    let n = m.name@;
    if is_mono(m) {
        assert(n[0] == n[0] && n[1] == n[1] && n[2] == n[2] && n[3] == n[3]);
        assert(n[4] == n[4] && n[5] == n[5] && n[6] == n[6] && n[7] == n[7]);
    }
}

} // verus!
