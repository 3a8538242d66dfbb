//! SketchMotion's drawing model: colours, pixel layers, frames and
//! timelines of an animation document, palettes, pixel tools and the
//! composition of layers into an image.

pub mod color;
pub mod hex;
pub mod palette;
pub mod grid;
pub mod text;
pub mod layer;
pub mod frame;
pub mod camera;
pub mod image_object;
pub mod vector;
pub mod pivot;
pub mod skeleton;
pub mod dirvector;
pub mod piece;
pub mod tools;
pub mod document;
pub mod raster;
pub mod render;
pub mod history;
pub mod rig_panel;
pub mod object_panels;
pub mod selection;
pub mod timeline;
pub mod layer_stack;

pub use color::Color;
pub use layer::Layer;
pub use piece::{ObjectPiece, PieceLibrary};
pub use tools::Tool;
pub use camera::{Camera, CameraKeyframe, Interp};
pub use hex::{from_hex, to_hex, to_hex_rgba};
pub use palette::{CharacterPalette, NamedColor, PaletteGroup, PaletteLibrary};
pub use image_object::ImageObject;
pub use vector::{Anchor, VectorObject};
pub use pivot::{Pivot, PivotTarget};
pub use skeleton::{Bone, BonePose, BoneShape, Skeleton};
pub use dirvector::DirVector;
pub use document::{Document, Track};
pub use frame::Frame;
