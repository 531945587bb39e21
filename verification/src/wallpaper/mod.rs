pub mod bits;
pub mod huffman;
pub mod inflate;
pub mod scale;
pub mod bmp;
pub mod ppm;
pub mod png;
pub mod prefix_code;
pub mod state;
