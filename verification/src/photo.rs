//! Photos, slides and their mathematical views.

use crate::tags::append_tags;
use vstd::prelude::*;

verus! {

/// How a photo is laid out: wide photos are `Horizontal`, tall ones `Vertical`.
#[derive(Debug, Clone, Copy, PartialEq, Eq, PartialOrd, Ord, Structural)]
pub enum Orientation {
    Horizontal,
    Vertical,
}

/// A tagged photo. The tag count it was declared with always equals the
/// number of tags it holds.
#[derive(Debug, PartialEq, Eq, PartialOrd, Ord)]
pub struct Photo {
    idx: usize,
    orient: Orientation,
    nb_tags: usize,
    tags: Vec<String>,
}

/// What a photo is to the contracts: its index, its orientation and its tags
/// in the order given, repeats included, each tag as a sequence of
/// characters.
pub struct PhotoView {
    pub idx: usize,
    pub orient: Orientation,
    pub tags: Seq<Seq<char>>,
}

/// One slide of a slideshow: two vertical photos side by side, in the order
/// in which they were paired, or one horizontal photo.
#[derive(Debug, PartialEq, Eq, PartialOrd, Ord)]
pub enum Slide {
    Vertical(Photo, Photo),
    Horizontal(Photo),
}

/// The view of a slide: the views of its photos.
pub enum SlideView {
    Vertical(PhotoView, PhotoView),
    Horizontal(PhotoView),
}

impl View for Photo {
    type V = PhotoView;

    closed spec fn view(&self) -> PhotoView {
        PhotoView { idx: self.idx, orient: self.orient, tags: self.tags.deep_view() }
    }
}

impl DeepView for Photo {
    type V = PhotoView;

    open spec fn deep_view(&self) -> PhotoView {
        self@
    }
}

impl View for Slide {
    type V = SlideView;

    open spec fn view(&self) -> SlideView {
        match *self {
            Slide::Vertical(first, second) => SlideView::Vertical(first@, second@),
            Slide::Horizontal(only) => SlideView::Horizontal(only@),
        }
    }
}

impl DeepView for Slide {
    type V = SlideView;

    open spec fn deep_view(&self) -> SlideView {
        self@
    }
}

impl SlideView {
    /// The tags of the slide with repeats: those of its first photo, then
    /// those of its second.
    pub open spec fn tags(self) -> Seq<Seq<char>> {
        match self {
            SlideView::Vertical(first, second) => first.tags + second.tags,
            SlideView::Horizontal(only) => only.tags,
        }
    }

    /// Whether the photos of the slide are laid out as the slide asks: both
    /// vertical in a pair, horizontal where one stands alone.
    pub open spec fn well_formed(self) -> bool {
        match self {
            SlideView::Vertical(first, second) => first.orient == Orientation::Vertical
                && second.orient == Orientation::Vertical,
            SlideView::Horizontal(only) => only.orient == Orientation::Horizontal,
        }
    }
}

impl Photo {
    #[verifier::type_invariant]
    spec fn count_matches(self) -> bool {
        self.nb_tags == self.tags@.len()
    }

    /// A photo with the given index, orientation and tags. Its tag count is
    /// the number of `tags`.
    pub fn new(idx: usize, orient: Orientation, tags: Vec<String>) -> (photo: Photo)
        ensures
            photo@ == (PhotoView { idx, orient, tags: tags.deep_view() }),
    {
        let nb_tags: usize = tags.len();
        Photo { idx, orient, nb_tags, tags }
    }

    /// The index of the photo: its place in the input it was read from.
    pub fn idx(&self) -> (idx: usize)
        ensures
            idx == self@.idx,
    {
        self.idx
    }

    /// The orientation of the photo.
    pub fn orient(&self) -> (orient: Orientation)
        ensures
            orient == self@.orient,
    {
        self.orient
    }

    /// The tag count of the photo: the number of its tags, repeats counted.
    pub fn nb_tags(&self) -> (count: usize)
        ensures
            count == self@.tags.len(),
    {
        proof {
            use_type_invariant(self);
        }
        self.nb_tags
    }

    /// The tags of the photo, in the order given.
    pub fn tags(&self) -> (tags: &Vec<String>)
        ensures
            tags.deep_view() == self@.tags,
    {
        &self.tags
    }
}

impl Clone for Photo {
    fn clone(&self) -> (copy: Photo)
        ensures
            copy@ == self@,
    {
        proof {
            use_type_invariant(self);
        }
        let mut tags: Vec<String> = Vec::new();
        let mut i: usize = 0;
        while i < self.tags.len()
            invariant
                i <= self.tags.len(),
                tags.len() == i,
                forall|k: int| 0 <= k < i ==> tags@[k]@ == self.tags@[k]@,
            decreases self.tags.len() - i,
        {
            tags.push(self.tags[i].clone());
            i = i + 1;
        }
        assert(tags.deep_view() =~= self.tags.deep_view());
        Photo { idx: self.idx, orient: self.orient, nb_tags: self.nb_tags, tags }
    }
}

impl Slide {
    /// The tags of the slide with repeats: those of its first photo, then
    /// those of its second.
    pub fn tags(&self) -> (tags: Vec<&String>)
        ensures
            tags.deep_view() == self@.tags(),
    {
        let mut tags: Vec<&String> = Vec::new();
        match self {
            Slide::Vertical(first, second) => {
                append_tags(&mut tags, first.tags());
                append_tags(&mut tags, second.tags());
            },
            Slide::Horizontal(only) => {
                append_tags(&mut tags, only.tags());
            },
        }
        tags
    }
}

impl Clone for Slide {
    fn clone(&self) -> (copy: Slide)
        ensures
            copy@ == self@,
    {
        match self {
            Slide::Vertical(first, second) => Slide::Vertical(first.clone(), second.clone()),
            Slide::Horizontal(only) => Slide::Horizontal(only.clone()),
        }
    }
}

} // verus!
