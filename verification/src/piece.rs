//! Library of reusable pieces: RGBA cut-outs the user saved (heads, arms,
//! poses, characters…) to paste into any work.
use vstd::prelude::*;
use vstd::string::*;

verus! {

/// A saved piece: a name and an RGBA image (`w` × `h`).
pub struct ObjectPiece {
    pub name: String,
    pub w: u32,
    pub h: u32,
    pub rgba: Vec<u8>,
}

/// What a piece is: its name, size and bytes.
pub struct ObjectPieceView {
    pub name: Seq<char>,
    pub w: u32,
    pub h: u32,
    pub rgba: Seq<u8>,
}

impl View for ObjectPiece {
    type V = ObjectPieceView;

    open spec fn view(&self) -> ObjectPieceView {
        ObjectPieceView { name: self.name@, w: self.w, h: self.h, rgba: self.rgba@ }
    }
}

impl Clone for ObjectPiece {
    /// A copy with the same name, size and bytes.
    fn clone(&self) -> (res: Self)
        ensures
            res@ == self@,
    {
        let rgba = self.rgba.clone();
        proof {
            assert(rgba@ =~= self.rgba@);
        }
        ObjectPiece { name: self.name.clone(), w: self.w, h: self.h, rgba }
    }
}

/// A collection of saved pieces.
pub struct PieceLibrary {
    pub pieces: Vec<ObjectPiece>,
}

impl Clone for PieceLibrary {
    /// A copy with the same pieces.
    fn clone(&self) -> (res: Self)
        ensures
            res.items() == self.items(),
    {
        let pieces = self.pieces.clone();
        proof {
            assert forall|i: int| 0 <= i < pieces@.len() implies pieces@[i]@ == self.pieces@[i]@ by {
                assert(cloned(self.pieces@[i], pieces@[i]));
            }
            assert(pieces@.map_values(|p: ObjectPiece| p@) =~= self.pieces@.map_values(|p: ObjectPiece| p@));
        }
        PieceLibrary { pieces }
    }
}

impl PieceLibrary {
    /// The pieces, in order, by what they are.
    pub open spec fn items(&self) -> Seq<ObjectPieceView> {
        self.pieces@.map_values(|p: ObjectPiece| p@)
    }

    /// An empty library.
    pub fn new() -> (lib: Self)
        ensures
            lib.items() == Seq::<ObjectPieceView>::empty(),
    {
        let lib = PieceLibrary { pieces: Vec::new() };
        assert(lib.items() =~= Seq::<ObjectPieceView>::empty());
        lib
    }

    /// Adds a piece at the end and returns its index.
    pub fn add(&mut self, name: &str, w: u32, h: u32, rgba: Vec<u8>) -> (i: usize)
        ensures
            final(self).items() == old(self).items().push(ObjectPieceView { name: name@, w, h, rgba: rgba@ }),
            i == old(self).items().len(),
    {
        self.pieces.push(ObjectPiece { name: String::from_str(name), w, h, rgba });
        assert(self.items() =~= old(self).items().push(ObjectPieceView { name: name@, w, h, rgba: rgba@ }));
        self.pieces.len() - 1
    }

    /// Removes the piece at index `i`; an index out of range is ignored.
    pub fn remove(&mut self, i: usize)
        ensures
            final(self).items() == (if i < old(self).items().len() {
                old(self).items().remove(i as int)
            } else {
                old(self).items()
            }),
    {
        if i < self.pieces.len() {
            self.pieces.remove(i);
            assert(self.items() =~= old(self).items().remove(i as int));
        }
    }

    /// Removes the piece at `i` (as `remove`) while the objects panel has
    /// piece `selected` chosen, `placing` it or not: the choice follows its
    /// piece, one lower when a piece before it went; when the chosen piece
    /// itself went, nothing is chosen and placing stops.
    pub fn remove_chosen(&mut self, i: usize, selected: Option<usize>, placing: bool) -> (r: (Option<usize>, bool))
        ensures
            final(self).items() == (if i < old(self).items().len() {
                old(self).items().remove(i as int)
            } else {
                old(self).items()
            }),
            r == (match selected {
                Some(s) => if s == i {
                    (None, false)
                } else if s > i {
                    (Some((s - 1) as usize), placing)
                } else {
                    (selected, placing)
                },
                None => (None, placing),
            }),
    {
        self.remove(i);
        match selected {
            Some(s) => if s == i {
                (None, false)
            } else if s > i {
                (Some(s - 1), placing)
            } else {
                (selected, placing)
            },
            None => (None, placing),
        }
    }
}

} // verus!
