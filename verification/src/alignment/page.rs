use crate::alignment::{check_power_of_two, is_power_of_two, Alignment};
use vstd::prelude::*;

verus! {

/// Alignment to the page boundary of the operating system.
///
/// The page size is a fact about the machine, so a descriptor is made by asking for it, and
/// holds the answer from then on.
#[derive(Clone, Copy, Debug)]
pub struct Page {
    size: usize,
}

/// Calls `page_size::get`, which asks the operating system for its page size. Nothing is
/// claimed of the answer.
#[verifier::external_body]
fn os_page_size() -> (r: usize) {
    page_size::get()
}

impl Page {
    /// The descriptor for a machine that reports pages of `reported` bytes, if that is a
    /// power of two.
    pub fn from_reported(reported: usize) -> (r: Option<Page>)
        ensures
            r is Some <==> is_power_of_two(reported as nat),
            r matches Some(page) ==> page.valid() && page.spec_size() == reported,
    {
        if check_power_of_two(reported) {
            Some(Page { size: reported })
        } else {
            None
        }
    }

    /// The descriptor for this machine, or `None` where it reports a page size that is
    /// not a power of two.
    pub fn detect() -> (r: Option<Page>)
        ensures
            r matches Some(page) ==> page.valid(),
    {
        let reported = os_page_size();
        Page::from_reported(reported)
    }
}

impl Alignment for Page {
    closed spec fn valid(&self) -> bool {
        is_power_of_two(self.size as nat)
    }

    closed spec fn spec_size(&self) -> nat {
        self.size as nat
    }

    proof fn size_is_power_of_two(&self) {
    }

    fn is_valid(&self) -> (r: bool) {
        check_power_of_two(self.size)
    }

    fn size(&self) -> (r: usize) {
        self.size
    }
}

} // verus!
