pub mod app;
pub mod canvas;
pub mod colors;
pub mod csv_backend;
pub mod dates;
pub mod encoding;
pub mod keys;
pub mod load;
pub mod numbers;
pub mod parquet_backend;
pub mod records;
pub mod table;
pub mod text;
pub mod ui;
pub mod values;
pub mod viewport;
pub mod width;
