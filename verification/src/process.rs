//! A process as the metadata events of a trace describe it.

use vstd::prelude::*;
use crate::text::{
    decimal, i64_to_string, pad_end, pad_start, push_padded_end, push_padded_start, push_truncated,
    texts, truncated, usize_to_string,
};

verus! {

/// The width of the id in the one-line rendering of a process.
pub const ID_WIDTH: usize = 6;

/// The width of the name in the one-line rendering of a process.
pub const NAME_WIDTH: usize = 10;

/// The width of the thread count in the one-line rendering of a process.
pub const THREADS_WIDTH: usize = 2;

/// The number of characters of the label that the one-line rendering shows.
pub const LABEL_LIMIT: usize = 40;

/// A process of a trace: its id, its name, its label and the names of its threads.
#[derive(Debug, PartialEq)]
pub struct ProcessInfo {
    pub id: i64,
    pub name: String,
    pub label: String,
    pub threads: Vec<String>,
}

/// What a `ProcessInfo` holds.
#[verifier::ext_equal]
pub struct ProcessView {
    pub id: i64,
    pub name: Seq<char>,
    pub label: Seq<char>,
    pub threads: Seq<Seq<char>>,
}

impl View for ProcessInfo {
    type V = ProcessView;

    open spec fn view(&self) -> ProcessView {
        ProcessView {
            id: self.id,
            name: self.name@,
            label: self.label@,
            threads: texts(self.threads@),
        }
    }
}

impl ProcessView {
    /// Whether the process is named exactly `Renderer`.
    pub open spec fn is_renderer(self) -> bool {
        self.name == "Renderer"@
    }

    /// 1 for a renderer and 0 for any other process: processes are listed by rising rank.
    pub open spec fn name_rank(self) -> int {
        if self.is_renderer() {
            1
        } else {
            0
        }
    }

    /// The process in one line: the id right-aligned in 6 characters, the name
    /// left-aligned in 10, the number of threads right-aligned in 2, and the first 40
    /// characters of the label.
    pub open spec fn rendering(self) -> Seq<char> {
        pad_start(decimal(self.id as int), ID_WIDTH as nat) + " - "@ + pad_end(
            self.name,
            NAME_WIDTH as nat,
        ) + " ("@ + pad_start(decimal(self.threads.len() as int), THREADS_WIDTH as nat)
            + " thread): "@ + truncated(self.label, LABEL_LIMIT as nat)
    }
}

impl ProcessInfo {
    /// 1 for a renderer and 0 for any other process.
    pub fn name_rank(&self) -> (r: i8)
        ensures
            r == self@.name_rank(),
    {
        if self.is_renderer() {
            1
        } else {
            0
        }
    }

    /// Whether the process is named exactly `Renderer`.
    pub fn is_renderer(&self) -> (r: bool)
        ensures
            r == self@.is_renderer(),
    {
        let renderer = String::from_str("Renderer");
        self.name == renderer
    }

    /// The process in one line.
    pub fn to_string(&self) -> (r: String)
        ensures
            r@ == self@.rendering(),
    {
        let mut out = String::new();
        let id = i64_to_string(self.id);
        push_padded_start(&mut out, id.as_str(), ID_WIDTH);
        out.append(" - ");
        push_padded_end(&mut out, self.name.as_str(), NAME_WIDTH);
        out.append(" (");
        let count = usize_to_string(self.threads.len());
        push_padded_start(&mut out, count.as_str(), THREADS_WIDTH);
        out.append(" thread): ");
        push_truncated(&mut out, self.label.as_str(), LABEL_LIMIT);
        assert(out@ =~= self@.rendering());
        out
    }
}

} // verus!
