//! Inspection of Android UI layouts: the hierarchy dump as a tree, the XPath of an
//! element, the device's answers, and the state of a viewer that shows them.

pub mod adb;
pub mod bytes;
pub mod capture;
pub mod captures;
pub mod devices;
pub mod files;
pub mod geometry;
pub mod http;
pub mod icon;
pub mod monitor;
pub mod numerals;
pub mod platform;
pub mod pointer;
pub mod rows;
pub mod text;
pub mod tree;
pub mod u2;
pub mod viewer;
pub mod xml;
pub mod xpath;
