//! The allow-list check on module names.
//!
//! A dump is redacted only if every loaded module is trusted: its name has
//! to start with one of the allowed prefixes. One module that does not is
//! enough to refuse the whole dump.
use vstd::prelude::*;
use crate::model::{ModuleRecord, UntrustedModule};

verus! {

/// `name` starts with one of the prefixes of `allow`.
pub open spec fn name_allowed(name: Seq<char>, allow: Seq<String>) -> bool {
    exists|j: int| 0 <= j < allow.len() && (#[trigger] allow[j])@.is_prefix_of(name)
}

/// Every module of the list has an allowed name.
pub open spec fn all_trusted(modules: Seq<ModuleRecord>, allow: Seq<String>) -> bool {
    forall|i: int| 0 <= i < modules.len() ==> name_allowed((#[trigger] modules[i]).name@, allow)
}

/// `k` is the first module of the list whose name is not allowed.
pub open spec fn first_untrusted(modules: Seq<ModuleRecord>, allow: Seq<String>, k: int) -> bool {
    &&& 0 <= k < modules.len()
    &&& !name_allowed(modules[k].name@, allow)
    &&& forall|i: int| 0 <= i < k ==> name_allowed((#[trigger] modules[i]).name@, allow)
}

/// Calls `str::starts_with` of the standard library with a string as the
/// pattern. Its documentation says that the call returns true if and only if
/// the pattern is a prefix of the string; the contract says the same of the
/// two strings' characters.
#[verifier::external_body]
fn starts_with(name: &str, prefix: &str) -> (found: bool)
    ensures
        found == prefix@.is_prefix_of(name@),
{
    name.starts_with(prefix)
}

/// Whether `name` starts with one of the prefixes of `allow`.
pub fn is_allowed(name: &str, allow: &Vec<String>) -> (allowed: bool)
    ensures
        allowed == name_allowed(name@, allow@),
{
    let n: usize = allow.len();
    let mut j: usize = 0;
    while j < n
        invariant
            n == allow@.len(),
            j <= n,
            forall|i: int| 0 <= i < j ==> !(#[trigger] allow@[i])@.is_prefix_of(name@),
        decreases n - j,
    {
        if starts_with(name, allow[j].as_str()) {
            assert(allow@[j as int]@.is_prefix_of(name@));
            return true;
        }
        j += 1;
    }
    false
}

/// Checks every module name against the allow-list.
///
/// The check passes if every name is allowed. Otherwise the error names the
/// first module, in list order, whose name is not.
pub fn check_modules(modules: &Vec<ModuleRecord>, allow: &Vec<String>) -> (checked: Result<
    (),
    UntrustedModule,
>)
    ensures
        match checked {
            Ok(()) => all_trusted(modules@, allow@),
            Err(e) => exists|k: int| #[trigger]
                first_untrusted(modules@, allow@, k) && e.name@ == modules@[k].name@,
        },
{
    let n: usize = modules.len();
    let mut i: usize = 0;
    while i < n
        invariant
            n == modules@.len(),
            i <= n,
            forall|m: int| 0 <= m < i ==> name_allowed((#[trigger] modules@[m]).name@, allow@),
        decreases n - i,
    {
        let module: &ModuleRecord = &modules[i];
        if !is_allowed(module.name.as_str(), allow) {
            let e = UntrustedModule { name: module.name.clone() };
            assert(first_untrusted(modules@, allow@, i as int));
            return Err(e);
        }
        i += 1;
    }
    Ok(())
}

/// The allow-list used where none is configured: the install directory of
/// the browser and the system library directory.
pub fn default_allow_list() -> (allow: Vec<String>)
    ensures
        allow@.len() == 2,
        allow@[0]@ == "C:\\Program Files\\Mozilla Firefox"@,
        allow@[1]@ == "C:\\Windows\\System32"@,
{
    let mut allow: Vec<String> = Vec::new();
    allow.push("C:\\Program Files\\Mozilla Firefox".to_owned());
    allow.push("C:\\Windows\\System32".to_owned());
    allow
}

} // verus!
