pub mod tetrimino;
