pub mod inspect_file;
