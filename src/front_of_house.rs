pub mod hosting;
