//! Style overlays: the visual properties that a call sets on a widget.
//!
//! Numbers are held by their bit patterns; nothing here computes with them.

use vstd::prelude::*;

verus! {

/// What fills a surface: a colour by its hexadecimal code, or something that
/// only the renderer knows.
#[derive(Clone, Copy, Debug, PartialEq, Eq, Structural)]
pub enum Brush {
    Solid(u32),
    Other(u64),
}

/// The radii of the corners, as bit patterns.
#[derive(Clone, Copy, Debug, PartialEq, Eq, Structural)]
pub struct CornerRadius {
    pub top_left: u32,
    pub top_right: u32,
    pub bottom_right: u32,
    pub bottom_left: u32,
}

/// The visual properties of a widget that an overlay can change.
#[derive(Clone, Copy, Debug, PartialEq, Eq, Structural)]
pub struct RenderProps {
    pub background: Option<Brush>,
    pub opacity: u32,
    pub border_radius: CornerRadius,
    pub border_radius_explicit: bool,
    pub border_width: u32,
    pub border_color: Option<u32>,
}

/// The properties that a call sets. Those that are not set are left alone.
#[derive(Clone, Copy, Debug, PartialEq, Eq, Structural)]
pub struct RenderPropsOverlay {
    pub background: Option<Brush>,
    pub opacity: Option<u32>,
    /// One radius for all corners.
    pub corner_radius: Option<u32>,
    pub border_width: Option<u32>,
    pub border_color: Option<u32>,
}

/// The overlay that sets nothing.
pub open spec fn empty_overlay() -> RenderPropsOverlay {
    RenderPropsOverlay {
        background: None,
        opacity: None,
        corner_radius: None,
        border_width: None,
        border_color: None,
    }
}

impl Default for RenderPropsOverlay {
    fn default() -> (o: RenderPropsOverlay)
        ensures
            o == empty_overlay(),
    {
        RenderPropsOverlay {
            background: None,
            opacity: None,
            corner_radius: None,
            border_width: None,
            border_color: None,
        }
    }
}

/// Properties with an overlay on them.
pub open spec fn overlaid(o: RenderPropsOverlay, base: RenderProps) -> RenderProps {
    RenderProps {
        background: if o.background is Some {
            o.background
        } else {
            base.background
        },
        opacity: match o.opacity {
            Some(n) => n,
            None => base.opacity,
        },
        border_radius: match o.corner_radius {
            Some(r) => CornerRadius { top_left: r, top_right: r, bottom_right: r, bottom_left: r },
            None => base.border_radius,
        },
        border_radius_explicit: o.corner_radius is Some || base.border_radius_explicit,
        border_width: match o.border_width {
            Some(n) => n,
            None => base.border_width,
        },
        border_color: if o.border_color is Some {
            o.border_color
        } else {
            base.border_color
        },
    }
}

impl RenderPropsOverlay {
    /// Set the properties that the overlay holds on `base`.
    pub fn apply_to(&self, base: &mut RenderProps)
        ensures
            *final(base) == overlaid(*self, *old(base)),
    {
        if self.background.is_some() {
            base.background = self.background;
        }
        match self.opacity {
            Some(n) => {
                base.opacity = n;
            },
            None => {},
        }
        match self.corner_radius {
            Some(r) => {
                base.border_radius = CornerRadius {
                    top_left: r,
                    top_right: r,
                    bottom_right: r,
                    bottom_left: r,
                };
                base.border_radius_explicit = true;
            },
            None => {},
        }
        match self.border_width {
            Some(n) => {
                base.border_width = n;
            },
            None => {},
        }
        if self.border_color.is_some() {
            base.border_color = self.border_color;
        }
    }

    /// `__set_overlay_bg__`: a colour by the lower half of its code.
    pub fn set_background(&mut self, color: i64)
        ensures
            *final(self) == (RenderPropsOverlay {
                background: Some(Brush::Solid(color as u32)),
                ..*old(self)
            }),
            final(self).background == Some(Brush::Solid(color as u32)),
            final(self).opacity == old(self).opacity,
            final(self).corner_radius == old(self).corner_radius,
            final(self).border_width == old(self).border_width,
            final(self).border_color == old(self).border_color,
    {
        self.background = Some(Brush::Solid(#[verifier::truncate] (color as u32)));
    }

    /// `__set_overlay_border_color__`.
    pub fn set_border_color(&mut self, color: i64)
        ensures
            *final(self) == (RenderPropsOverlay {
                border_color: Some(color as u32),
                ..*old(self)
            }),
            final(self).border_color == Some(color as u32),
            final(self).background == old(self).background,
            final(self).opacity == old(self).opacity,
            final(self).corner_radius == old(self).corner_radius,
            final(self).border_width == old(self).border_width,
    {
        self.border_color = Some(#[verifier::truncate] (color as u32));
    }
}

/// An overlay that sets nothing changes nothing.
pub proof fn empty_overlay_changes_nothing(base: RenderProps)
    ensures
        overlaid(empty_overlay(), base) == base,
{
}

/// Putting an overlay on twice does what putting it on once does.
pub proof fn overlaying_twice(o: RenderPropsOverlay, base: RenderProps)
    ensures
        overlaid(o, overlaid(o, base)) == overlaid(o, base),
{
}

} // verus!
