//! Keeps the images of a markdown document tidy.
//!
//! A document refers to image files, as markdown images `![alt](target)`
//! or as HTML images `<img src="target">`. The files lie in a directory
//! beside it. This crate finds the references, sets them against the files
//! that are there, and from that
//!
//! - lists the files that no reference names, to be removed, and
//! - plans the renaming of the files that are named to `1`, `2`, `3`, ...,
//!   together with the document rewritten to match.
//!
//! The crate reads and writes no file and shows no window. A session
//! ([`app::App`]) is told what happened ([`app::Event`]) and answers with
//! what is to be done ([`app::Action`]); listing directories, reading the
//! document, asking the user, removing and copying files are left to
//! whoever runs the session.
//!
//! # What is proved
//!
//! Every function is verified against its contract, and the contracts are
//! stated over plain models: text as `Seq<char>`, lists as `Seq`, each
//! data type by its `deep_view`. Beyond the contracts, the modules prove
//! what holds of them together: that a reference of the catalog names its
//! file ([`catalog::lemma_refreshed_references_name_files`]), that a
//! session only ever removes unused files, and only after a yes
//! ([`app::lemma_removes_unused_only`]), that the renaming of a session's
//! images cannot fail ([`rename::lemma_session_can_rename`]), and that
//! the rewritten references name the copies
//! ([`rename::lemma_plan_names_the_copies`]).
//!
//! # What is trusted
//!
//! References are found with the `regex` crate. What it matches is not
//! proved: [`extract::is_accepted`] and [`extract::first_groups`] only
//! give names to what it answers, and everything stated of the references
//! of a document is stated over those names.
//!
//! # Paths
//!
//! Paths are text ([`path`]). `/` and `\` both separate components, `.`
//! and empty components do not count, and two paths name the same file
//! when their components agree. A path that starts with a separator
//! starts at the root; no other form of absolute path is known.

pub mod app;
pub mod catalog;
pub mod cleanup;
pub mod dialog;
pub mod extract;
pub mod path;
pub mod rename;
pub mod scan;
pub mod text;
