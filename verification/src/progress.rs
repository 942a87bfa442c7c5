use crate::text::{decimal, decimal_string};
use vstd::prelude::*;

verus! {

/// Coarse progress of a long-running scan.
#[derive(Debug, Clone, PartialEq, Eq)]
pub struct ProgressState {
    pub current: usize,
    pub total: usize,
    pub message: String,
}

/// The mathematical content of a `ProgressState`.
pub struct ProgressView {
    pub current: nat,
    pub total: nat,
    pub message: Seq<char>,
}

impl View for ProgressState {
    type V = ProgressView;

    open spec fn view(&self) -> ProgressView {
        ProgressView {
            current: self.current as nat,
            total: self.total as nat,
            message: self.message@,
        }
    }
}

/// The progress shown before any scan has run.
pub open spec fn idle() -> ProgressView {
    ProgressView { current: 0, total: 0, message: Seq::empty() }
}

/// The progress shown when a scan has been asked for.
pub open spec fn starting() -> ProgressView {
    ProgressView { current: 0, total: 0, message: "Starting..."@ }
}

/// The progress shown once the number of tags is known.
pub open spec fn processing(p: ProgressView, total: nat) -> ProgressView {
    ProgressView {
        current: p.current,
        total,
        message: "Processing "@ + decimal(total) + " tags..."@,
    }
}

/// The progress shown while the tags from place `current` on are compared.
pub open spec fn comparing(current: nat, total: nat) -> ProgressView {
    ProgressView {
        current,
        total,
        message: "Comparing tags: "@ + decimal(current) + "/"@ + decimal(total),
    }
}

/// The progress shown when all `total` tags are compared and `pairs` pairs found.
pub open spec fn completed(total: nat, pairs: nat) -> ProgressView {
    ProgressView {
        current: total,
        total,
        message: "Found "@ + decimal(pairs) + " similar pairs"@,
    }
}

impl Default for ProgressState {
    fn default() -> (r: Self)
        ensures
            r@ == idle(),
    {
        ProgressState::new()
    }
}

impl ProgressState {
    /// The progress shown before any scan has run.
    pub fn new() -> (r: Self)
        ensures
            r@ == idle(),
    {
        ProgressState { current: 0, total: 0, message: String::new() }
    }

    /// The progress shown when a scan has been asked for.
    pub fn starting() -> (r: Self)
        ensures
            r@ == starting(),
    {
        ProgressState { current: 0, total: 0, message: "Starting...".to_owned() }
    }

    /// Sets the number of tags that the scan goes over.
    pub fn set_total(&mut self, total: usize)
        ensures
            final(self)@ == processing(old(self)@, total as nat),
    {
        let mut message = "Processing ".to_owned();
        message.append(decimal_string(total).as_str());
        message.append(" tags...");
        self.total = total;
        self.message = message;
    }

    /// The progress shown while the tags from place `current` on are compared.
    pub fn comparing(current: usize, total: usize) -> (r: Self)
        ensures
            r@ == comparing(current as nat, total as nat),
    {
        let mut message = "Comparing tags: ".to_owned();
        message.append(decimal_string(current).as_str());
        message.append("/");
        message.append(decimal_string(total).as_str());
        ProgressState { current, total, message }
    }

    /// The progress shown when all tags are compared.
    pub fn completed(total: usize, pairs: usize) -> (r: Self)
        ensures
            r@ == completed(total as nat, pairs as nat),
    {
        let mut message = "Found ".to_owned();
        message.append(decimal_string(pairs).as_str());
        message.append(" similar pairs");
        ProgressState { current: total, total, message }
    }
}

} // verus!
