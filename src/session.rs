//! The interactive session: the catalog of the latest load, the query, the
//! current view and the selection, driven one message at a time.
use vstd::prelude::*;

use crate::photo::{Photo, SizeFilter};
use crate::query::{
    evaluate, is_starting_query, is_view, toggled, QueryState, SortCriteria, SortOrder,
};

verus! {

/// An event from the surface that shows the view.
#[derive(Clone, Debug)]
pub enum Message {
    /// A load finished: the generation it was started with, and its catalog.
    PhotosLoaded(u64, Vec<Photo>),
    /// The load of this generation could not read its root directory.
    LoadFailed(u64),
    /// The entry at this view index was picked.
    PhotoSelected(usize),
    PhotoDeselected,
    SearchInput(String),
    /// Flip the switch of this extension.
    ToggleFileType(String),
    SelectSizeFilter(SizeFilter),
    SortCriteriaChanged(SortCriteria),
    ToggleSortOrder,
}

/// The other direction.
pub open spec fn reversed(order: SortOrder) -> SortOrder {
    match order {
        SortOrder::Ascending => SortOrder::Descending,
        SortOrder::Descending => SortOrder::Ascending,
    }
}

/// The state of a session.
#[derive(Debug)]
pub struct PhotoOrganizer {
    /// The catalog of the latest applied load.
    pub photos: Vec<Photo>,
    /// The view: indices into `photos`.
    pub filtered: Vec<usize>,
    /// The selected view index, if any.
    pub selected: Option<usize>,
    /// A load is under way.
    pub loading: bool,
    /// The latest applied load could not read its root directory.
    pub load_failed: bool,
    /// The generation of the latest load started; only its result is applied.
    pub generation: u64,
    pub query: QueryState,
}

impl PhotoOrganizer {
    /// No extension has two switches, the view is the one that the query
    /// selects from the catalog, and the selection, if any, is an index into it.
    pub open spec fn wf(&self) -> bool {
        &&& self.query.wf()
        &&& is_view(self.photos@, self.query, self.filtered@)
        &&& match self.selected {
            Some(i) => i < self.filtered.len(),
            None => true,
        }
    }

    /// The catalog, load state and generation of the two states are the same.
    pub open spec fn same_catalog(&self, other: &PhotoOrganizer) -> bool {
        &&& self.photos == other.photos
        &&& self.loading == other.loading
        &&& self.load_failed == other.load_failed
        &&& self.generation == other.generation
    }

    /// A session with an empty catalog and the starting query, loading the
    /// catalog of generation 0.
    pub fn new() -> (r: PhotoOrganizer)
        ensures
            r.wf(),
            is_starting_query(r.query),
            r.photos.len() == 0,
            r.filtered.len() == 0,
            r.selected is None,
            r.loading,
            !r.load_failed,
            r.generation == 0,
    {
        let photos: Vec<Photo> = Vec::new();
        let query = QueryState::new();
        let filtered: Vec<usize> = Vec::new();
        PhotoOrganizer {
            photos,
            filtered,
            selected: None,
            loading: true,
            load_failed: false,
            generation: 0,
            query,
        }
    }

    /// Starts a new load, which supersedes any load still under way, and
    /// returns its generation.
    pub fn begin_load(&mut self) -> (g: u64)
        requires
            old(self).generation < u64::MAX,
        ensures
            g == old(self).generation + 1,
            final(self).generation == g,
            final(self).loading,
            final(self).load_failed == old(self).load_failed,
            final(self).photos == old(self).photos,
            final(self).filtered == old(self).filtered,
            final(self).selected == old(self).selected,
            final(self).query == old(self).query,
    {
        self.generation = self.generation + 1;
        self.loading = true;
        self.generation
    }

    /// Recomputes the view and clears the selection.
    fn refresh(&mut self)
        requires
            old(self).query.wf(),
        ensures
            final(self).wf(),
            final(self).selected is None,
            final(self).photos == old(self).photos,
            final(self).query == old(self).query,
            final(self).loading == old(self).loading,
            final(self).load_failed == old(self).load_failed,
            final(self).generation == old(self).generation,
    {
        self.filtered = evaluate(&self.photos, &self.query);
        self.selected = None;
    }

    /// Applies one message. Every change of catalog or query recomputes the
    /// view and clears the selection. Picking the selected index deselects
    /// it; picking an index outside the view leaves nothing selected. A load
    /// result of an older generation is ignored.
    pub fn update(&mut self, message: Message)
        requires
            old(self).wf(),
        ensures
            final(self).wf(),
            match message {
                Message::PhotosLoaded(g, photos) => if g == old(self).generation {
                    &&& final(self).photos == photos
                    &&& !final(self).loading
                    &&& !final(self).load_failed
                    &&& final(self).generation == old(self).generation
                    &&& final(self).query == old(self).query
                    &&& final(self).selected is None
                } else {
                    *final(self) == *old(self)
                },
                Message::LoadFailed(g) => if g == old(self).generation {
                    &&& final(self).photos.len() == 0
                    &&& final(self).filtered.len() == 0
                    &&& !final(self).loading
                    &&& final(self).load_failed
                    &&& final(self).generation == old(self).generation
                    &&& final(self).query == old(self).query
                    &&& final(self).selected is None
                } else {
                    *final(self) == *old(self)
                },
                Message::PhotoSelected(i) => {
                    &&& final(self).same_catalog(old(self))
                    &&& final(self).query == old(self).query
                    &&& final(self).filtered == old(self).filtered
                    &&& final(self).selected == if i < old(self).filtered.len() && old(
                        self,
                    ).selected != Some(i) {
                        Some(i)
                    } else {
                        None::<usize>
                    }
                },
                Message::PhotoDeselected => {
                    &&& final(self).same_catalog(old(self))
                    &&& final(self).query == old(self).query
                    &&& final(self).filtered == old(self).filtered
                    &&& final(self).selected is None
                },
                Message::SearchInput(term) => {
                    &&& final(self).same_catalog(old(self))
                    &&& final(self).query == (QueryState { search_term: term, ..old(self).query })
                    &&& final(self).selected is None
                },
                Message::ToggleFileType(ext) => {
                    &&& final(self).same_catalog(old(self))
                    &&& toggled(
                        old(self).query.extension_enabled@,
                        final(self).query.extension_enabled@,
                        ext@,
                    )
                    &&& final(self).query.search_term == old(self).query.search_term
                    &&& final(self).query.size_filter == old(self).query.size_filter
                    &&& final(self).query.sort_criteria == old(self).query.sort_criteria
                    &&& final(self).query.sort_order == old(self).query.sort_order
                    &&& final(self).selected is None
                },
                Message::SelectSizeFilter(f) => {
                    &&& final(self).same_catalog(old(self))
                    &&& final(self).query == (QueryState { size_filter: f, ..old(self).query })
                    &&& final(self).selected is None
                },
                Message::SortCriteriaChanged(c) => {
                    &&& final(self).same_catalog(old(self))
                    &&& final(self).query == (QueryState { sort_criteria: c, ..old(self).query })
                    &&& final(self).selected is None
                },
                Message::ToggleSortOrder => {
                    &&& final(self).same_catalog(old(self))
                    &&& final(self).query == (QueryState {
                        sort_order: reversed(old(self).query.sort_order),
                        ..old(self).query
                    })
                    &&& final(self).selected is None
                },
            },
    {
        match message {
            Message::PhotosLoaded(g, photos) => {
                if g == self.generation {
                    self.photos = photos;
                    self.loading = false;
                    self.load_failed = false;
                    self.refresh();
                }
            },
            Message::LoadFailed(g) => {
                if g == self.generation {
                    self.photos = Vec::new();
                    self.loading = false;
                    self.load_failed = true;
                    self.refresh();
                    proof {
                        if self.filtered.len() > 0 {
                            assert(self.filtered@[0] < self.photos@.len());
                        }
                    }
                }
            },
            Message::PhotoSelected(i) => {
                if i < self.filtered.len() && self.selected != Some(i) {
                    self.selected = Some(i);
                } else {
                    self.selected = None;
                }
            },
            Message::PhotoDeselected => {
                self.selected = None;
            },
            Message::SearchInput(term) => {
                self.query.search_term = term;
                self.refresh();
            },
            Message::ToggleFileType(ext) => {
                self.query.toggle_extension(&ext);
                self.refresh();
            },
            Message::SelectSizeFilter(f) => {
                self.query.size_filter = f;
                self.refresh();
            },
            Message::SortCriteriaChanged(c) => {
                self.query.sort_criteria = c;
                self.refresh();
            },
            Message::ToggleSortOrder => {
                self.query.sort_order =
                    match self.query.sort_order {
                        SortOrder::Ascending => SortOrder::Descending,
                        SortOrder::Descending => SortOrder::Ascending,
                    };
                self.refresh();
            },
        }
    }
}

} // verus!
