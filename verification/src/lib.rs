//! Spreadsheet viewing: workbooks, selections, layout and file formats.

pub mod appearance;
pub mod archive;
pub mod attributes;
pub mod audit;
pub mod batch;
pub mod cache;
pub mod cell;
pub mod cli;
pub mod compound;
pub mod csv_source;
pub mod display;
pub mod engine;
pub mod errors;
pub mod escape;
pub mod export;
pub mod formats;
pub mod formulas;
pub mod grid;
pub mod layout;
pub mod limits;
pub mod lines;
pub mod merges;
pub mod metadata;
pub mod namebox;
pub mod numbers;
pub mod opening;
pub mod package;
pub mod pairs;
pub mod parquet_source;
pub mod pixels;
pub mod plist;
pub mod range;
pub mod references;
pub mod sheet;
pub mod shell;
pub mod styles;
pub mod text;
pub mod urls;
pub mod viewer;
pub mod workbook;
pub mod xml;
