//! Which GPU backend the speech engine was built with, and its display name.

use vstd::prelude::*;
use crate::text::str_eq;

verus! {

/// The backend that wins among those built in: CUDA, then Vulkan, then Metal.
pub open spec fn spec_backend(cuda: bool, vulkan: bool, metal: bool) -> Option<Seq<char>> {
    if cuda {
        Some("cuda"@)
    } else if vulkan {
        Some("vulkan"@)
    } else if metal {
        Some("metal"@)
    } else {
        None
    }
}

/// The GPU backend compiled into the speech engine, if any, given which
/// backends the build enables (`cuda`, `vulkan`, `metal`): CUDA first, then
/// Vulkan, then Metal.
pub fn compiled_backend(cuda: bool, vulkan: bool, metal: bool) -> (r: Option<&'static str>)
    ensures
        r is Some <==> spec_backend(cuda, vulkan, metal) is Some,
        r matches Some(b) ==> Some(b@) == spec_backend(cuda, vulkan, metal),
{
    if cuda {
        Some("cuda")
    } else if vulkan {
        Some("vulkan")
    } else if metal {
        Some("metal")
    } else {
        None
    }
}

/// Whether any GPU backend is compiled in, given which backends the build enables.
pub fn gpu_compiled(cuda: bool, vulkan: bool, metal: bool) -> (b: bool)
    ensures
        b == spec_backend(cuda, vulkan, metal) is Some,
        b == (cuda || vulkan || metal),
{
    compiled_backend(cuda, vulkan, metal).is_some()
}

/// The name shown for a backend: a label for the known ones, else the name itself.
pub open spec fn spec_display_name(backend: Seq<char>) -> Seq<char> {
    if backend == "cuda"@ {
        "CUDA (NVIDIA)"@
    } else if backend == "vulkan"@ {
        "Vulkan (GPU)"@
    } else if backend == "metal"@ {
        "Metal (Apple GPU)"@
    } else {
        backend
    }
}

/// The name shown to the user for a backend.
pub fn backend_display_name(backend: &str) -> (r: &str)
    ensures
        r@ == spec_display_name(backend@),
{
    if str_eq(backend, "cuda") {
        "CUDA (NVIDIA)"
    } else if str_eq(backend, "vulkan") {
        "Vulkan (GPU)"
    } else if str_eq(backend, "metal") {
        "Metal (Apple GPU)"
    } else {
        backend
    }
}

} // verus!
