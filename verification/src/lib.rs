//! A reader for 5ch-style bulletin boards: the parsers of board menus,
//! thread lists (`subject.txt`) and thread logs (`.dat`), the HTML clean-up
//! of post bodies and names, the URL rules, the posting protocol and the
//! state of the reader's tabs.

pub mod textseq;
pub mod html;
pub mod urls;
pub mod boards;
pub mod strmap;
pub mod cookies;
pub mod post;
pub mod menu;
pub mod gestures;
pub mod reader;
pub mod session;
pub mod table;
pub mod laws;
pub mod parse_laws;
