//! The walker: the cart together with the ground it walks on and the
//! shortcut that is installed for it.

use vstd::prelude::*;
use crate::cart::{Cart, Moved, Tick, WalkError, ZipPath};
use crate::grid::Grid;
use crate::side::Side;
use crate::step::{step, take_step};
use crate::vector::UVec2;
use crate::walk::{grounded, lemma_step_keeps_grounded};

verus! {

/// The cart, the ground it walks on and the shortcut that is installed.
pub struct Walker {
    pub cart: Cart,
    pub ground: Grid<bool>,
    pub zip_path: Option<ZipPath>,
}

/// The cells of `ground` after `cell`, if there is one, has been filled.
pub open spec fn filled_view(ground: &Grid<bool>, cell: Option<UVec2>) -> Seq<bool> {
    match cell {
        Some(cell) => ground@.update(cell.y * ground.spec_width() + cell.x, true),
        None => ground@,
    }
}

impl Walker {
    /// The cart has ground under it, and the installed shortcut ends inside
    /// the grid.
    pub open spec fn is_grounded(&self) -> bool {
        grounded(self.cart, &self.ground, self.zip_path)
    }

    /// The walker at the start of play: on a ground of the given size on
    /// which only `first` is filled, the cart in the middle of the top side of
    /// that cell, and no shortcut.
    pub fn start(size: UVec2, first: UVec2) -> (walker: Walker)
        requires
            size.x * size.y <= usize::MAX,
            first.x < size.x,
            first.y < size.y,
        ensures
            walker.cart == (Cart::OnSide { cell: first, side: Side::Top, distance: 0 }),
            walker.zip_path is None,
            walker.ground.wf(),
            walker.is_grounded(),
            walker.ground.spec_size() == size,
            forall|cell: UVec2|
                walker.ground.contains(cell) ==> walker.ground.spec_index(cell) == (cell == first),
    {
        let mut ground: Grid<bool> = Grid::new(size);
        proof {
            assert forall|cell: UVec2| ground.contains(cell) implies !ground.spec_index(cell) by {
                ground.lemma_index_in_bounds(cell);
            }
        }
        ground.set(first, true);
        Walker { cart: Cart::OnSide { cell: first, side: Side::Top, distance: 0 }, ground, zip_path: None }
    }

    /// Takes the result of a search for a shortcut: a shortcut that was found
    /// is installed in place of the one before, and without one nothing
    /// changes.
    pub fn install_zip_path(&mut self, found: Option<ZipPath>)
        ensures
            final(self).zip_path == (match found {
                Some(path) => Some(path),
                None => old(self).zip_path,
            }),
            final(self).cart == old(self).cart,
            final(self).ground == old(self).ground,
            old(self).is_grounded() && (found matches Some(path) ==> old(self).ground.contains(
                path.end.pos,
            )) ==> final(self).is_grounded(),
    {
        if let Some(path) = found {
            self.zip_path = Some(path);
        }
    }

    /// Advances the walker by one tick.
    ///
    /// On success the cart, the shortcut and the ground are what `step` says
    /// of the walker before the tick; on failure the walker is unchanged.
    pub fn tick(&mut self, input: Tick) -> (res: Result<Moved, WalkError>)
        ensures
            match step(old(self).cart, &old(self).ground, old(self).zip_path, input) {
                Ok(s) => {
                    &&& res == Ok::<Moved, WalkError>(Moved { changed: s.changed, drawing: s.drawing })
                    &&& final(self).cart == s.cart
                    &&& final(self).zip_path == s.zip_path
                    &&& final(self).ground.wf()
                    &&& final(self).ground.spec_size() == old(self).ground.spec_size()
                    &&& final(self).ground@ == filled_view(&old(self).ground, s.filled)
                },
                Err(e) => res == Err::<Moved, WalkError>(e) && *final(self) == *old(self),
            },
            old(self).is_grounded() ==> final(self).is_grounded(),
    {
        proof {
            use_type_invariant(&self.ground);
        }
        let step = take_step(self.cart, &self.ground, self.zip_path, input);
        match step {
            Ok(s) => {
                if let Some(cell) = s.filled {
                    self.ground.set(cell, true);
                }
                proof {
                    if old(self).is_grounded() {
                        lemma_step_keeps_grounded(
                            old(self).cart,
                            &old(self).ground,
                            old(self).zip_path,
                            input,
                            &self.ground,
                        );
                    }
                }
                self.cart = s.cart;
                self.zip_path = s.zip_path;
                Ok(Moved { changed: s.changed, drawing: s.drawing })
            },
            Err(e) => Err(e),
        }
    }
}

} // verus!
