//! Stream codecs and document containers of the Altium file kinds.
pub mod blocks;
pub mod pcbdoc_streams;
pub mod pcblib_streams;
pub mod schlib_streams;
pub mod schdoc;
pub mod pcbdoc;
pub mod schdoc_io;
pub mod pcbdoc_io;
pub mod intlib;
pub mod container;
