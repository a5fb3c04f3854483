//! Batch object detection over a directory of images: the decisions of the
//! pipeline, with the model, the image codec and the file system left to callers.
pub mod text;
pub mod paths;
pub mod catalog;
pub mod frame;
pub mod batch;
