//! A renderer of escape-time fractals into grey-scale images, band by band.
//!
//! The library holds what the renderer decides: how a pixel is shaded from
//! the escape count of its point (`shade`), how a buffer of pixels is filled
//! row by row (`render`), how the rows of an image are shared out among
//! workers (`bands`) and how each worker's band is rendered by itself
//! (`dispatch`), and how a pair such as `1000x750` is read (`pair`). The
//! arithmetic on points of the plane is the caller's: the renderer takes it
//! as two functions, one from a pixel to its point and one from a point to
//! its escape count, and says of every byte that it writes which answers of
//! the two it shades.
//!
//! `overflow` stands apart: the four families of integer arithmetic that say
//! what they do on overflow, on worked values.

pub mod bands;
pub mod dispatch;
pub mod overflow;
pub mod pair;
pub mod render;
pub mod shade;
