pub mod playlist;
