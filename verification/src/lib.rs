pub mod agreement;
pub mod alignment;
pub mod alike;
pub mod app;
pub mod arrangement;
pub mod arrivals;
pub mod attraction;
pub mod boolean_ops;
pub mod canvas;
pub mod census;
pub mod clicks;
pub mod clipboard;
pub mod color;
pub mod composing;
pub mod curves;
pub mod dealings;
pub mod document;
pub mod dragging;
pub mod dropping;
pub mod edits;
pub mod figures;
pub mod fixed;
pub mod fonts;
pub mod geometry;
pub mod gestures;
pub mod glyphs;
pub mod grid_ops;
pub mod gripping;
pub mod grouping;
pub mod halftone_fill;
pub mod history;
pub mod hit_test;
pub mod hover;
pub mod image_commands;
pub mod image_edit;
pub mod layer_painting;
pub mod makings;
pub mod marks;
pub mod masking;
pub mod model;
pub mod names;
pub mod order;
pub mod outlines;
pub mod painting;
pub mod panel_actions;
pub mod path_edit;
pub mod placement;
pub mod pictures;
pub mod places;
pub mod plane;
pub mod point_editing;
pub mod pointing;
pub mod press;
pub mod records;
pub mod rendering;
pub mod replies;
pub mod sameness;
pub mod scalar;
pub mod screens;
pub mod shading;
pub mod shapes;
pub mod shortcuts;
pub mod snapping;
pub mod spreading;
pub mod stacking;
pub mod style;
pub mod text;
pub mod text_editing;
pub mod text_fit;
pub mod text_rows;
pub mod texture_cache;
pub mod tints;
pub mod transform;
pub mod tree;
pub mod typesetting;
pub mod viewing;
pub mod wishes;
