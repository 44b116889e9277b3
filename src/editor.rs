//! The editor's model: the map being edited.

use crate::map::{LevelMap, LevelMapView, Vertex, vertices_view};
use vstd::prelude::*;

verus! {

/// The root of the editor: it holds the map being edited.
pub struct Editor {
    map: LevelMap,
}

impl View for Editor {
    type V = LevelMapView;

    closed spec fn view(&self) -> LevelMapView {
        self.map@
    }
}

impl Editor {
    /// An editor for `map`.
    pub fn new(map: LevelMap) -> (r: Editor)
        ensures
            r@ == map@,
    {
        Editor { map }
    }

    /// The map that the editor holds.
    pub fn map(&self) -> (r: &LevelMap)
        ensures
            r@ == self@,
    {
        &self.map
    }

    /// The vertex at index `idx`, where there is one.
    pub fn vertex(&self, idx: usize) -> (r: Option<&Vertex>)
        ensures
            idx < self@.vertices.len() ==> (r matches Some(v) && v@ == self@.vertices[idx as int]),
            idx >= self@.vertices.len() ==> r is None,
    {
        let vertices = self.map.vertices();
        if idx < vertices.len() {
            assert(vertices_view(vertices@)[idx as int] == vertices@[idx as int]@);
            Some(&vertices[idx])
        } else {
            None
        }
    }
}

} // verus!
