//! vlfo: ISF shaders driven over OSC. The verified core: `.vlfo` graphs
//! compiled to ISF, ISF headers and their uniform block, the parameter store
//! that OSC writes into, and the helpers of the command-line program.
pub mod text;
pub mod nodes;
pub mod lexical;
pub mod graph;
pub mod codegen;
pub mod floatbits;
pub mod json;
pub mod isf;
pub mod layout;
pub mod glsl;
pub mod params;
pub mod osc;
pub mod hot;
pub mod cli;
pub mod frames;
pub mod ndi;
