//! What the presentation layer asks of the model before it draws: the kind
//! of star that a node is shown as, and the stops of a tour through the
//! nodes.

use vstd::prelude::*;
use crate::fs_model::{FileNode, FileNodeView};
use crate::paths::{extension_of, path_extension};
use crate::text::reads_as;

verus! {

/// The kinds of star, one for directories and one for each family of file
/// extensions that has a colour of its own.
#[derive(Debug, Clone, Copy, PartialEq, Eq, Structural)]
pub enum StarKind {
    Directory,
    /// `rs`
    Rust,
    /// `toml`, `yaml`, `yml`, `json`
    Config,
    /// `md`, `txt`
    Text,
    /// `js`, `ts`
    Script,
    /// `py`
    Python,
    /// `html`, `css`
    Web,
    /// `java`, `cpp`, `c`
    Compiled,
    /// `go`
    Go,
    Other,
}

/// The kind of star for a file with the extension `extension`.
pub open spec fn kind_of_extension(extension: Seq<char>) -> StarKind {
    if extension == "rs"@ {
        StarKind::Rust
    } else if extension == "toml"@ || extension == "yaml"@ || extension == "yml"@ || extension
        == "json"@ {
        StarKind::Config
    } else if extension == "md"@ || extension == "txt"@ {
        StarKind::Text
    } else if extension == "js"@ || extension == "ts"@ {
        StarKind::Script
    } else if extension == "py"@ {
        StarKind::Python
    } else if extension == "html"@ || extension == "css"@ {
        StarKind::Web
    } else if extension == "java"@ || extension == "cpp"@ || extension == "c"@ {
        StarKind::Compiled
    } else if extension == "go"@ {
        StarKind::Go
    } else {
        StarKind::Other
    }
}

/// The kind of star for a node: a directory is one whatever its name, a file
/// goes by its extension, and a file without one is of no known kind.
pub open spec fn star_kind_of(node: FileNodeView) -> StarKind {
    if node.is_dir {
        StarKind::Directory
    } else {
        match extension_of(node.path) {
            Some(extension) => kind_of_extension(extension),
            None => StarKind::Other,
        }
    }
}

/// The kind of star for a file with the extension `extension`.
pub fn extension_kind(extension: &String) -> (kind: StarKind)
    ensures
        kind == kind_of_extension(extension@),
{
    if reads_as(extension, "rs") {
        StarKind::Rust
    } else if reads_as(extension, "toml") || reads_as(extension, "yaml") || reads_as(
        extension,
        "yml",
    ) || reads_as(extension, "json") {
        StarKind::Config
    } else if reads_as(extension, "md") || reads_as(extension, "txt") {
        StarKind::Text
    } else if reads_as(extension, "js") || reads_as(extension, "ts") {
        StarKind::Script
    } else if reads_as(extension, "py") {
        StarKind::Python
    } else if reads_as(extension, "html") || reads_as(extension, "css") {
        StarKind::Web
    } else if reads_as(extension, "java") || reads_as(extension, "cpp") || reads_as(
        extension,
        "c",
    ) {
        StarKind::Compiled
    } else if reads_as(extension, "go") {
        StarKind::Go
    } else {
        StarKind::Other
    }
}

/// The kind of star that `node` is shown as.
pub fn star_kind(node: &FileNode) -> (kind: StarKind)
    ensures
        kind == star_kind_of(node@),
{
    if node.is_dir {
        StarKind::Directory
    } else {
        match path_extension(&node.path) {
            Some(extension) => extension_kind(&extension),
            None => StarKind::Other,
        }
    }
}

/// The most stops that a tour makes.
pub const TOUR_STOPS: usize = 5;

/// The number of stops of a tour through `total_nodes` nodes.
pub open spec fn stop_count(total_nodes: usize) -> int {
    if total_nodes < TOUR_STOPS {
        total_nodes as int
    } else {
        TOUR_STOPS as int
    }
}

/// The node of stop `i` of a tour through `total_nodes` nodes: the stops
/// are spread evenly over the node indices, starting at 0.
pub open spec fn stop_at(total_nodes: usize, i: int) -> int {
    (i * total_nodes) / stop_count(total_nodes)
}

/// The stops of a tour through `total_nodes` nodes: up to five node
/// indices, spread evenly, in rising order; none where there is no node.
pub fn tour_stops(total_nodes: usize) -> (stops: Vec<usize>)
    ensures
        stops@.len() == stop_count(total_nodes),
        forall|i: int| 0 <= i < stops@.len() ==> #[trigger] stops@[i] == stop_at(total_nodes, i),
        forall|i: int| 0 <= i < stops@.len() ==> (#[trigger] stops@[i]) < total_nodes,
{
    let count: usize = if total_nodes < TOUR_STOPS {
        total_nodes
    } else {
        TOUR_STOPS
    };
    let mut stops: Vec<usize> = Vec::new();
    let mut i: usize = 0;
    while i < count
        invariant
            i <= count,
            count == stop_count(total_nodes),
            count <= TOUR_STOPS,
            count <= total_nodes,
            stops@.len() == i,
            forall|k: int| 0 <= k < i ==> #[trigger] stops@[k] == stop_at(total_nodes, k),
            forall|k: int| 0 <= k < i ==> (#[trigger] stops@[k]) < total_nodes,
        decreases count - i,
    {
        proof {
            let t = total_nodes as int;
            let n = i as int;
            assert(0 <= n * t <= 5 * t) by (nonlinear_arith)
                requires
                    0 <= n <= 5,
                    0 <= t,
            ;
        }
        let wide: u128 = (i as u128) * (total_nodes as u128) / (count as u128);
        proof {
            let t = total_nodes as int;
            let c = count as int;
            let n = i as int;
            assert(n * t < c * t) by (nonlinear_arith)
                requires
                    0 <= n < c,
                    0 < t,
            ;
            assert((n * t) / c < t) by (nonlinear_arith)
                requires
                    0 <= n * t < c * t,
                    0 < c,
            ;
            assert(0 <= n * t) by (nonlinear_arith)
                requires
                    0 <= n,
                    0 <= t,
            ;
        }
        let stop: usize = wide as usize;
        stops.push(stop);
        i += 1;
    }
    stops
}

} // verus!
