//! The static knowledge tables: the property, element and pseudo-class
//! names this language assistance knows about.  Read-only reference
//! data, consulted by the diagnostics scanner and by completion and
//! hover providers; the table contents carry no invariant beyond being
//! exactly these names.

use vstd::prelude::*;

verus! {

/// A style property: its name, documentation and accepted values.
#[derive(Debug, Clone)]
pub struct UssProperty {
    pub name: &'static str,
    pub description: &'static str,
    pub syntax: &'static str,
    pub initial: &'static str,
    pub inherited: bool,
    pub values: Vec<&'static str>,
}

/// An element type that selectors can address.
#[derive(Debug, Clone)]
pub struct UxmlElement {
    pub name: &'static str,
    pub description: &'static str,
    pub namespace: &'static str,
}

/// A pseudo-class that can follow a selector.
#[derive(Debug, Clone)]
pub struct UssPseudoClass {
    pub name: &'static str,
    pub description: &'static str,
}

/// The names of all known style properties, in table order.
pub open spec fn property_name_seq() -> Seq<Seq<char>> {
    seq![
        "flex-direction"@,
        "flex-wrap"@,
        "flex-grow"@,
        "flex-shrink"@,
        "flex-basis"@,
        "align-items"@,
        "align-self"@,
        "align-content"@,
        "justify-content"@,
        "width"@,
        "height"@,
        "min-width"@,
        "min-height"@,
        "max-width"@,
        "max-height"@,
        "margin"@,
        "margin-left"@,
        "margin-right"@,
        "margin-top"@,
        "margin-bottom"@,
        "padding"@,
        "padding-left"@,
        "padding-right"@,
        "padding-top"@,
        "padding-bottom"@,
        "border-width"@,
        "border-left-width"@,
        "border-right-width"@,
        "border-top-width"@,
        "border-bottom-width"@,
        "border-color"@,
        "border-left-color"@,
        "border-right-color"@,
        "border-top-color"@,
        "border-bottom-color"@,
        "border-radius"@,
        "border-top-left-radius"@,
        "border-top-right-radius"@,
        "border-bottom-left-radius"@,
        "border-bottom-right-radius"@,
        "position"@,
        "left"@,
        "right"@,
        "top"@,
        "bottom"@,
        "color"@,
        "font-size"@,
        "-unity-font"@,
        "-unity-font-definition"@,
        "-unity-font-style"@,
        "-unity-text-align"@,
        "-unity-text-outline-width"@,
        "-unity-text-outline-color"@,
        "white-space"@,
        "text-overflow"@,
        "letter-spacing"@,
        "word-spacing"@,
        "-unity-paragraph-spacing"@,
        "background-color"@,
        "background-image"@,
        "-unity-background-scale-mode"@,
        "-unity-background-image-tint-color"@,
        "-unity-slice-left"@,
        "-unity-slice-right"@,
        "-unity-slice-top"@,
        "-unity-slice-bottom"@,
        "-unity-slice-scale"@,
        "opacity"@,
        "visibility"@,
        "display"@,
        "overflow"@,
        "rotate"@,
        "scale"@,
        "translate"@,
        "transform-origin"@,
        "transition-property"@,
        "transition-duration"@,
        "transition-timing-function"@,
        "transition-delay"@,
        "cursor"@,
        "-unity-overflow-clip-box"@,
    ]
}

/// The names of all known element types, in table order.
pub open spec fn element_name_seq() -> Seq<Seq<char>> {
    seq![
        "VisualElement"@,
        "BindableElement"@,
        "Box"@,
        "TextElement"@,
        "Label"@,
        "Image"@,
        "IMGUIContainer"@,
        "Foldout"@,
        "ScrollView"@,
        "ListView"@,
        "TreeView"@,
        "MultiColumnListView"@,
        "MultiColumnTreeView"@,
        "GroupBox"@,
        "TwoPaneSplitView"@,
        "Button"@,
        "RepeatButton"@,
        "Toggle"@,
        "Scroller"@,
        "Slider"@,
        "SliderInt"@,
        "MinMaxSlider"@,
        "ProgressBar"@,
        "DropdownField"@,
        "EnumField"@,
        "EnumFlagsField"@,
        "RadioButton"@,
        "RadioButtonGroup"@,
        "TextField"@,
        "IntegerField"@,
        "LongField"@,
        "FloatField"@,
        "DoubleField"@,
        "Vector2Field"@,
        "Vector3Field"@,
        "Vector4Field"@,
        "Vector2IntField"@,
        "Vector3IntField"@,
        "RectField"@,
        "RectIntField"@,
        "BoundsField"@,
        "BoundsIntField"@,
        "Hash128Field"@,
        "ColorField"@,
        "CurveField"@,
        "GradientField"@,
        "ObjectField"@,
        "PropertyField"@,
        "LayerField"@,
        "LayerMaskField"@,
        "MaskField"@,
        "TagField"@,
        "Template"@,
        "TemplateContainer"@,
        "Instance"@,
    ]
}

/// The names of all known pseudo-classes, in table order.
pub open spec fn pseudo_class_name_seq() -> Seq<Seq<char>> {
    seq![
        "hover"@,
        "active"@,
        "focus"@,
        "disabled"@,
        "enabled"@,
        "checked"@,
        "selected"@,
        "root"@,
        "first-child"@,
        "last-child"@,
    ]
}

/// All known property names.
pub fn get_property_names() -> (r: Vec<&'static str>)
    ensures
        r.deep_view() == property_name_seq(),
{
    let r: Vec<&'static str> = vec![
        "flex-direction",
        "flex-wrap",
        "flex-grow",
        "flex-shrink",
        "flex-basis",
        "align-items",
        "align-self",
        "align-content",
        "justify-content",
        "width",
        "height",
        "min-width",
        "min-height",
        "max-width",
        "max-height",
        "margin",
        "margin-left",
        "margin-right",
        "margin-top",
        "margin-bottom",
        "padding",
        "padding-left",
        "padding-right",
        "padding-top",
        "padding-bottom",
        "border-width",
        "border-left-width",
        "border-right-width",
        "border-top-width",
        "border-bottom-width",
        "border-color",
        "border-left-color",
        "border-right-color",
        "border-top-color",
        "border-bottom-color",
        "border-radius",
        "border-top-left-radius",
        "border-top-right-radius",
        "border-bottom-left-radius",
        "border-bottom-right-radius",
        "position",
        "left",
        "right",
        "top",
        "bottom",
        "color",
        "font-size",
        "-unity-font",
        "-unity-font-definition",
        "-unity-font-style",
        "-unity-text-align",
        "-unity-text-outline-width",
        "-unity-text-outline-color",
        "white-space",
        "text-overflow",
        "letter-spacing",
        "word-spacing",
        "-unity-paragraph-spacing",
        "background-color",
        "background-image",
        "-unity-background-scale-mode",
        "-unity-background-image-tint-color",
        "-unity-slice-left",
        "-unity-slice-right",
        "-unity-slice-top",
        "-unity-slice-bottom",
        "-unity-slice-scale",
        "opacity",
        "visibility",
        "display",
        "overflow",
        "rotate",
        "scale",
        "translate",
        "transform-origin",
        "transition-property",
        "transition-duration",
        "transition-timing-function",
        "transition-delay",
        "cursor",
        "-unity-overflow-clip-box",
    ];
    assert(r.deep_view() =~~= property_name_seq());
    r
}

/// All known element type names.
pub fn get_element_names() -> (r: Vec<&'static str>)
    ensures
        r.deep_view() == element_name_seq(),
{
    let r: Vec<&'static str> = vec![
        "VisualElement",
        "BindableElement",
        "Box",
        "TextElement",
        "Label",
        "Image",
        "IMGUIContainer",
        "Foldout",
        "ScrollView",
        "ListView",
        "TreeView",
        "MultiColumnListView",
        "MultiColumnTreeView",
        "GroupBox",
        "TwoPaneSplitView",
        "Button",
        "RepeatButton",
        "Toggle",
        "Scroller",
        "Slider",
        "SliderInt",
        "MinMaxSlider",
        "ProgressBar",
        "DropdownField",
        "EnumField",
        "EnumFlagsField",
        "RadioButton",
        "RadioButtonGroup",
        "TextField",
        "IntegerField",
        "LongField",
        "FloatField",
        "DoubleField",
        "Vector2Field",
        "Vector3Field",
        "Vector4Field",
        "Vector2IntField",
        "Vector3IntField",
        "RectField",
        "RectIntField",
        "BoundsField",
        "BoundsIntField",
        "Hash128Field",
        "ColorField",
        "CurveField",
        "GradientField",
        "ObjectField",
        "PropertyField",
        "LayerField",
        "LayerMaskField",
        "MaskField",
        "TagField",
        "Template",
        "TemplateContainer",
        "Instance",
    ];
    assert(r.deep_view() =~~= element_name_seq());
    r
}

/// All known pseudo-class names.
pub fn get_pseudo_class_names() -> (r: Vec<&'static str>)
    ensures
        r.deep_view() == pseudo_class_name_seq(),
{
    let r: Vec<&'static str> = vec![
        "hover",
        "active",
        "focus",
        "disabled",
        "enabled",
        "checked",
        "selected",
        "root",
        "first-child",
        "last-child",
    ];
    assert(r.deep_view() =~~= pseudo_class_name_seq());
    r
}

} // verus!
