//! The page entities a site is made of: single posts, the ordered post
//! collection, and the home index page.
pub mod index;
pub mod post;
pub mod posts;
