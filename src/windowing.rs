pub mod windowed;
