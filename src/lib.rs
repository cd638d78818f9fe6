//! An incremental lexer for terminal control sequences (ANSI / VT escape
//! codes), with a tokenizer and an interpreter for CSI sequence bodies.
pub mod csi;
pub mod gr;
pub mod known;
pub mod codes;
pub mod parser;

pub use csi::{CSIPart, CSIParser};
pub use gr::{Color, GraphicsRendition, SelectGraphic, RGB, VGA};
pub use known::{KnownCSI, ScreenMode};
pub use codes::{Fp, Fs, C0, C1};
pub use parser::{AnsiParser, Config, CsiMod, Out, ParserState, SizedAnsiParser, UnsizedAnsiParser, CSI};
