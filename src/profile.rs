use vstd::prelude::*;

verus! {

/// A vector asset: raw markup, an emoji character, or an emoji name.
#[derive(Debug, Clone, PartialEq, Eq)]
pub enum SerializableSvgSource {
    Raw { markup: String },
    EmojiChar { grapheme: String },
    EmojiName { identifier: String },
}

impl SerializableSvgSource {
    /// Raw vector markup.
    pub fn from_svg(markup: String) -> (r: SerializableSvgSource)
        ensures
            r == (SerializableSvgSource::Raw { markup }),
    {
        SerializableSvgSource::Raw { markup }
    }

    /// An emoji given by its character(s).
    pub fn from_emoji(grapheme: String) -> (r: SerializableSvgSource)
        ensures
            r == (SerializableSvgSource::EmojiChar { grapheme }),
    {
        SerializableSvgSource::EmojiChar { grapheme }
    }

    /// An emoji given by its name, looked up later by the renderer.
    pub fn from_emoji_name(identifier: String) -> (r: SerializableSvgSource)
        ensures
            r == (SerializableSvgSource::EmojiName { identifier }),
    {
        SerializableSvgSource::EmojiName { identifier }
    }
}

/// The largest scale, `1.0`, in thousandths.
pub const SCALE_FULL: u32 = 1000;

/// A scale factor in `(0, 1]`, held in thousandths: `1..=1000`.
#[derive(Debug, Clone, Copy, PartialEq, Eq)]
pub struct Scale {
    thousandths: u32,
}

/// Why a scale factor was refused.
#[derive(Debug, Clone, Copy, PartialEq, Eq)]
pub enum ScaleError {
    /// The value, in thousandths, lies outside `1..=1000`.
    OutOfRange { thousandths: u32 },
}

impl Scale {
    #[verifier::type_invariant]
    spec fn inv(self) -> bool {
        1 <= self.thousandths <= SCALE_FULL
    }

    /// The value in thousandths.
    pub closed spec fn value(self) -> nat {
        self.thousandths as nat
    }

    /// A scale of `thousandths / 1000`; values outside `(0, 1]` are rejected,
    /// never clamped.
    pub fn new(thousandths: u32) -> (r: Result<Scale, ScaleError>)
        ensures
            r is Ok <==> 1 <= thousandths <= SCALE_FULL,
            r matches Ok(s) ==> s.value() == thousandths,
            r matches Err(e) ==> e == (ScaleError::OutOfRange { thousandths }),
    {
        if 1 <= thousandths && thousandths <= SCALE_FULL {
            Ok(Scale { thousandths })
        } else {
            Err(ScaleError::OutOfRange { thousandths })
        }
    }

    /// The value in thousandths, always in `1..=1000`.
    pub fn thousandths(&self) -> (r: u32)
        ensures
            r == self.value(),
            1 <= r <= SCALE_FULL,
    {
        proof {
            use_type_invariant(self);
        }
        self.thousandths
    }
}

/// Where an overlay is anchored on the folder.
#[derive(Debug, Clone, Copy, PartialEq, Eq)]
pub enum SerializablePosition {
    BottomLeft,
    BottomRight,
    TopLeft,
    TopRight,
    Center,
}

/// A hue, saturation and lightness shift of the base folder color: hue in
/// degrees, saturation and lightness in percentage points.
#[derive(Debug, Clone, Copy, PartialEq, Eq)]
pub struct HslMutationSettings {
    pub hue_shift: i32,
    pub saturation_shift: i32,
    pub lightness_shift: i32,
}

/// A decal centered on the folder.
#[derive(Debug, Clone, PartialEq, Eq)]
pub struct DecalSettings {
    pub source: SerializableSvgSource,
    pub scale: Scale,
    pub enabled: bool,
}

/// An overlay anchored at a position of the folder.
#[derive(Debug, Clone, PartialEq, Eq)]
pub struct OverlaySettings {
    pub source: SerializableSvgSource,
    pub position: SerializablePosition,
    pub scale: Scale,
    pub enabled: bool,
}

/// What to change on a folder icon; every part is optional, and a profile
/// with none set changes nothing.
#[derive(Debug, Clone, PartialEq, Eq)]
pub struct CustomizationProfile {
    pub hsl_mutation: Option<HslMutationSettings>,
    pub decal: Option<DecalSettings>,
    pub overlay: Option<OverlaySettings>,
}

impl CustomizationProfile {
    /// The empty profile.
    pub fn new() -> (r: CustomizationProfile)
        ensures
            r.hsl_mutation is None,
            r.decal is None,
            r.overlay is None,
    {
        CustomizationProfile { hsl_mutation: None, decal: None, overlay: None }
    }

    /// This profile with its color shift set to `m`.
    pub fn with_hsl_mutation(self, m: HslMutationSettings) -> (r: CustomizationProfile)
        ensures
            r.hsl_mutation == Some(m),
            r.decal == self.decal,
            r.overlay == self.overlay,
    {
        CustomizationProfile { hsl_mutation: Some(m), ..self }
    }

    /// This profile with its decal set to `d`.
    pub fn with_decal(self, d: DecalSettings) -> (r: CustomizationProfile)
        ensures
            r.hsl_mutation == self.hsl_mutation,
            r.decal == Some(d),
            r.overlay == self.overlay,
    {
        CustomizationProfile { decal: Some(d), ..self }
    }

    /// This profile with its overlay set to `o`.
    pub fn with_overlay(self, o: OverlaySettings) -> (r: CustomizationProfile)
        ensures
            r.hsl_mutation == self.hsl_mutation,
            r.decal == self.decal,
            r.overlay == Some(o),
    {
        CustomizationProfile { overlay: Some(o), ..self }
    }

    /// The decal to render: the one set, unless it is disabled.
    pub fn active_decal(&self) -> (r: Option<&DecalSettings>)
        ensures
            r is Some <==> (self.decal is Some && self.decal->0.enabled),
            r matches Some(d) ==> *d == self.decal->0,
    {
        match &self.decal {
            Some(d) => if d.enabled {
                Some(d)
            } else {
                None
            },
            None => None,
        }
    }

    /// The overlay to render: the one set, unless it is disabled.
    pub fn active_overlay(&self) -> (r: Option<&OverlaySettings>)
        ensures
            r is Some <==> (self.overlay is Some && self.overlay->0.enabled),
            r matches Some(o) ==> *o == self.overlay->0,
    {
        match &self.overlay {
            Some(o) => if o.enabled {
                Some(o)
            } else {
                None
            },
            None => None,
        }
    }
}

/// A vector asset as plain values.
pub enum SourceView {
    Raw(Seq<char>),
    EmojiChar(Seq<char>),
    EmojiName(Seq<char>),
}

/// A decal as plain values; `scale` is in thousandths.
pub struct DecalView {
    pub source: SourceView,
    pub scale: nat,
    pub enabled: bool,
}

/// An overlay as plain values; `scale` is in thousandths.
pub struct OverlayView {
    pub source: SourceView,
    pub position: SerializablePosition,
    pub scale: nat,
    pub enabled: bool,
}

/// A profile as plain values.
pub struct ProfileView {
    pub hsl_mutation: Option<HslMutationSettings>,
    pub decal: Option<DecalView>,
    pub overlay: Option<OverlayView>,
}

/// Every scale of `v` lies in `1..=1000`, as every built profile's does.
pub open spec fn profile_view_valid(v: ProfileView) -> bool {
    &&& v.decal matches Some(d) ==> 1 <= d.scale <= SCALE_FULL
    &&& v.overlay matches Some(o) ==> 1 <= o.scale <= SCALE_FULL
}

impl View for SerializableSvgSource {
    type V = SourceView;

    open spec fn view(&self) -> SourceView {
        match self {
            SerializableSvgSource::Raw { markup } => SourceView::Raw(markup@),
            SerializableSvgSource::EmojiChar { grapheme } => SourceView::EmojiChar(grapheme@),
            SerializableSvgSource::EmojiName { identifier } => SourceView::EmojiName(identifier@),
        }
    }
}

impl View for DecalSettings {
    type V = DecalView;

    open spec fn view(&self) -> DecalView {
        DecalView { source: self.source@, scale: self.scale.value(), enabled: self.enabled }
    }
}

impl View for OverlaySettings {
    type V = OverlayView;

    open spec fn view(&self) -> OverlayView {
        OverlayView {
            source: self.source@,
            position: self.position,
            scale: self.scale.value(),
            enabled: self.enabled,
        }
    }
}

impl View for CustomizationProfile {
    type V = ProfileView;

    open spec fn view(&self) -> ProfileView {
        ProfileView {
            hsl_mutation: self.hsl_mutation,
            decal: match self.decal {
                Some(d) => Some(d@),
                None => None,
            },
            overlay: match self.overlay {
                Some(o) => Some(o@),
                None => None,
            },
        }
    }
}

} // verus!
