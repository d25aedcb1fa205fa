//! The engine of a small web browser: documents, styles, layout, painting and the decisions of
//! the frame and window loops, as functions from plain values to plain values.
pub mod pixel;
pub mod raster;
pub mod blit;
pub mod canvas;
pub mod order;
pub mod boxes;
pub mod paint;
pub mod paint_laws;
pub mod sizing;
pub mod flow;
pub mod margins;
pub mod flex;
pub mod waiters;
pub mod grid;
pub mod text;
pub mod text_laws;
pub mod dom;
pub mod tree;
pub mod subtree;
pub mod document;
pub mod document_laws;
pub mod numbers;
pub mod html;
pub mod html_laws;
pub mod inner_html;
pub mod calc;
pub mod sizes;
pub mod css;
pub mod stylesheet;
pub mod css_laws;
pub mod keywords;
pub mod bits;
pub mod index;
pub mod selectors;
pub mod matching;
pub mod search;
pub mod query;
pub mod query_laws;
pub mod selector_laws;
pub mod cascade;
pub mod cascade_laws;
pub mod computed;
pub mod sheets;
pub mod rules;
pub mod urls;
pub mod forms;
pub mod navigation;
pub mod script_runs;
pub mod script_laws;
pub mod scripts;
pub mod elements;
pub mod updates;
pub mod needs;
pub mod lengths;
pub mod shapes;
pub mod labels;
pub mod layout_state;
pub mod layout_model;
pub mod layout;
pub mod layout_answers;
pub mod layout_laws;
pub mod place_laws;
pub mod inside_laws;
pub mod style_laws;
pub mod reading_laws;
pub mod layout_boxes;
pub mod grid_axis;
pub mod grid_laws;
pub mod flex_sizes;
pub mod flex_laws;
pub mod host;
pub mod clicks;
pub mod viewport;
pub mod page_laws;
pub mod timing;
pub mod frame;
pub mod images;
pub mod picture_laws;
pub mod snapshots;
pub mod redirect;
pub mod tabs;
pub mod observers;
pub mod loader;
pub mod custom_elements;
pub mod ui;
pub mod ui_layout;
pub mod ui_runtime;
pub mod ui_laws;
pub mod parts_laws;
pub mod computed_laws;
pub mod header;
