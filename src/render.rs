//! What a drawing of the graphs shows: colours and styles of edges and
//! nodes, graph names, and the nodes worth drawing.

use vstd::prelude::*;
use crate::graph::{CallEdge, CallGraph, CallNode, ChainGraph};
use crate::text::{chars_of, concat_chars};

verus! {

/// A colour of the drawing.
#[derive(Debug, Clone, Copy, PartialEq, Eq, Structural)]
pub enum Color {
    Purple,
    Red,
    Blue,
}

/// A line style of the drawing.
#[derive(Debug, Clone, Copy, PartialEq, Eq, Structural)]
pub enum LineStyle {
    Solid,
    Dotted,
}

/// The colour of an edge: purple where an error is forwarded, red where an
/// error is produced and kept, blue where a result is forwarded that carries
/// no error, none otherwise.
pub fn edge_color(e: &CallEdge) -> (r: Option<Color>)
    ensures
        r == if e.is_error && e.propagates {
            Some(Color::Purple)
        } else if e.is_error {
            Some(Color::Red)
        } else if e.propagates {
            Some(Color::Blue)
        } else {
            None
        },
{
    if e.is_error && e.propagates {
        Some(Color::Purple)
    } else if e.is_error {
        Some(Color::Red)
    } else if e.propagates {
        Some(Color::Blue)
    } else {
        None
    }
}

/// The line style of an edge: solid where it carries an error or forwards a
/// result, dotted otherwise.
pub fn edge_style(e: &CallEdge) -> (r: LineStyle)
    ensures
        r == if e.is_error || e.propagates {
            LineStyle::Solid
        } else {
            LineStyle::Dotted
        },
{
    if e.is_error || e.propagates {
        LineStyle::Solid
    } else {
        LineStyle::Dotted
    }
}

/// The colour of a node: red where the function may panic.
pub fn node_color(n: &CallNode) -> (r: Option<Color>)
    ensures
        r == if n.panics {
            Some(Color::Red)
        } else {
            None
        },
{
    if n.panics {
        Some(Color::Red)
    } else {
        None
    }
}

/// A character that may stand in a graph name.
pub open spec fn is_name_char(c: char) -> bool {
    ('a' <= c && c <= 'z') || ('A' <= c && c <= 'Z') || ('0' <= c && c <= '9') || c == '_'
}

/// The characters of `s` that may stand in a graph name, in order.
pub open spec fn name_chars(s: Seq<char>) -> Seq<char>
    decreases s.len(),
{
    if s.len() == 0 {
        Seq::empty()
    } else if is_name_char(s.last()) {
        name_chars(s.drop_last()).push(s.last())
    } else {
        name_chars(s.drop_last())
    }
}

/// The name of the drawing of a graph of crate `crate_name`: the crate name
/// kept to letters, digits and underscores, after "error_propagation_", and
/// followed by "_chains" for a chain graph.
pub open spec fn graph_name(crate_name: Seq<char>, chains: bool) -> Seq<char> {
    "error_propagation_"@ + name_chars(crate_name) + if chains {
        "_chains"@
    } else {
        Seq::empty()
    }
}

/// The name of the drawing of a graph of crate `crate_name`.
pub fn graph_id(crate_name: &str, chains: bool) -> (r: Vec<char>)
    ensures
        r@ == graph_name(crate_name@, chains),
{
    let s = chars_of(crate_name);
    let mut kept: Vec<char> = Vec::new();
    let mut i: usize = 0;
    while i < s.len()
        invariant
            i <= s@.len(),
            kept@ == name_chars(s@.take(i as int)),
        decreases s@.len() - i,
    {
        let c = s[i];
        proof {
            assert(s@.take(i + 1).drop_last() =~= s@.take(i as int));
        }
        if ('a' <= c && c <= 'z') || ('A' <= c && c <= 'Z') || ('0' <= c && c <= '9') || c == '_' {
            kept.push(c);
        }
        i = i + 1;
    }
    proof {
        assert(s@.take(i as int) =~= s@);
    }
    let prefix = chars_of("error_propagation_");
    let mut r = concat_chars(&prefix, &kept);
    if chains {
        let suffix = chars_of("_chains");
        r = concat_chars(&r, &suffix);
    } else {
        proof {
            assert(r@ + Seq::<char>::empty() =~= r@);
        }
    }
    r
}

/// The nodes met along `ends`, each pair's source then target, each node once
/// and in the order first met.
pub open spec fn touched(ends: Seq<(usize, usize)>) -> Seq<usize>
    decreases ends.len(),
{
    if ends.len() == 0 {
        Seq::empty()
    } else {
        let prev = touched(ends.drop_last());
        let (a, b) = ends.last();
        let with_a = if prev.contains(a) {
            prev
        } else {
            prev.push(a)
        };
        if with_a.contains(b) {
            with_a
        } else {
            with_a.push(b)
        }
    }
}

/// Whether `x` is in `v`.
fn has_node(v: &Vec<usize>, x: usize) -> (r: bool)
    ensures
        r == v@.contains(x),
{
    let mut i: usize = 0;
    while i < v.len()
        invariant
            i <= v@.len(),
            forall|j: int| 0 <= j < i ==> v@[j] != x,
        decreases v@.len() - i,
    {
        if v[i] == x {
            return true;
        }
        i = i + 1;
    }
    false
}

/// Add the two ends of one edge to `seen`.
fn touch(seen: &mut Vec<usize>, a: usize, b: usize)
    ensures
        ({
            let with_a = if old(seen)@.contains(a) {
                old(seen)@
            } else {
                old(seen)@.push(a)
            };
            final(seen)@ == if with_a.contains(b) {
                with_a
            } else {
                with_a.push(b)
            }
        }),
{
    if !has_node(seen, a) {
        seen.push(a);
    }
    if !has_node(seen, b) {
        seen.push(b);
    }
}

/// The two ends of each call edge.
pub open spec fn call_ends(edges: Seq<CallEdge>) -> Seq<(usize, usize)> {
    edges.map_values(|e: CallEdge| (e.from, e.to))
}

/// The two ends of each chain edge.
pub open spec fn chain_ends(edges: Seq<crate::graph::ChainEdge>) -> Seq<(usize, usize)> {
    edges.map_values(|e: crate::graph::ChainEdge| (e.from, e.to))
}

impl CallGraph {
    /// The nodes worth drawing: those that some edge joins, in the order the
    /// edges meet them.
    pub fn walk_nodes(&self) -> (r: Vec<usize>)
        ensures
            r@ == touched(call_ends(self.edges@)),
    {
        let mut seen: Vec<usize> = Vec::new();
        let mut k: usize = 0;
        while k < self.edges.len()
            invariant
                k <= self.edges@.len(),
                seen@ == touched(call_ends(self.edges@.take(k as int))),
            decreases self.edges@.len() - k,
        {
            proof {
                assert(call_ends(self.edges@.take(k + 1)).drop_last() =~= call_ends(
                    self.edges@.take(k as int),
                ));
            }
            touch(&mut seen, self.edges[k].from, self.edges[k].to);
            k = k + 1;
        }
        proof {
            assert(self.edges@.take(k as int) =~= self.edges@);
        }
        seen
    }
}

impl ChainGraph {
    /// The nodes worth drawing: those that some edge joins, in the order the
    /// edges meet them.
    pub fn walk_nodes(&self) -> (r: Vec<usize>)
        ensures
            r@ == touched(chain_ends(self.edges@)),
    {
        let mut seen: Vec<usize> = Vec::new();
        let mut k: usize = 0;
        while k < self.edges.len()
            invariant
                k <= self.edges@.len(),
                seen@ == touched(chain_ends(self.edges@.take(k as int))),
            decreases self.edges@.len() - k,
        {
            proof {
                assert(chain_ends(self.edges@.take(k + 1)).drop_last() =~= chain_ends(
                    self.edges@.take(k as int),
                ));
            }
            touch(&mut seen, self.edges[k].from, self.edges[k].to);
            k = k + 1;
        }
        proof {
            assert(self.edges@.take(k as int) =~= self.edges@);
        }
        seen
    }
}

} // verus!
