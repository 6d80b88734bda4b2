//! The schemas of structured answers.
use crate::json;
use crate::json::{field, object, text, text_list, Json, JsonView};
use crate::text::chars;
use crate::text::chars::own;
use vstd::prelude::*;

verus! {

broadcast use chars::lemma_texts_push, chars::lemma_texts_empty;

/// A schema of texts of at least one character.
pub open spec fn filled_text() -> JsonView {
    JsonView::Object(
        seq![
            ("type"@, JsonView::Text("string"@)),
            ("minLength"@, JsonView::Number("1"@)),
        ],
    )
}

/// A schema of numbers from zero to one.
pub open spec fn unit_number() -> JsonView {
    JsonView::Object(
        seq![
            ("type"@, JsonView::Text("number"@)),
            ("minimum"@, JsonView::Number("0.0"@)),
            ("maximum"@, JsonView::Number("1.0"@)),
        ],
    )
}

/// A schema of counts.
pub open spec fn count_number() -> JsonView {
    JsonView::Object(
        seq![
            ("type"@, JsonView::Text("integer"@)),
            ("minimum"@, JsonView::Number("0"@)),
        ],
    )
}

/// A schema of objects with exactly the given properties.
pub open spec fn closed_object(
    properties: Seq<(Seq<char>, JsonView)>,
    required: Seq<Seq<char>>,
) -> Seq<(Seq<char>, JsonView)> {
    seq![
        ("type"@, JsonView::Text("object"@)),
        ("properties"@, JsonView::Object(properties)),
        ("required"@, json::text_items(required)),
        ("additionalProperties"@, JsonView::Bool(false)),
    ]
}

/// The actions that an assessment can suggest.
pub open spec fn actions() -> Seq<Seq<char>> {
    seq!["lock"@, "refactor"@, "test"@, "monitor"@, "ignore"@]
}

/// The schema of a thermal assessment.
pub open spec fn assessment_schema() -> JsonView {
    JsonView::Object(
        closed_object(
            seq![
                ("complexity_score"@, unit_number()),
                ("dependency_score"@, unit_number()),
                ("risk_score"@, unit_number()),
                ("churn_score"@, unit_number()),
                (
                    "suggested_action"@,
                    JsonView::Object(
                        seq![
                            ("type"@, JsonView::Text("string"@)),
                            ("enum"@, json::text_items(actions())),
                        ],
                    ),
                ),
                ("reasoning"@, filled_text()),
            ],
            seq![
                "complexity_score"@,
                "dependency_score"@,
                "risk_score"@,
                "churn_score"@,
                "suggested_action"@,
                "reasoning"@,
            ],
        ),
    )
}

/// The schema of one step of a plan.
pub open spec fn step_schema() -> JsonView {
    JsonView::Object(
        closed_object(
            seq![
                ("file_path"@, filled_text()),
                ("instruction"@, filled_text()),
                ("priority"@, unit_number()),
                ("estimated_tokens"@, count_number()),
            ],
            seq!["file_path"@, "instruction"@, "priority"@, "estimated_tokens"@],
        ),
    )
}

/// A schema of lists.
pub open spec fn list_of(items: JsonView) -> JsonView {
    JsonView::Object(seq![("type"@, JsonView::Text("array"@)), ("items"@, items)])
}

/// The schema of planner responses.
pub open spec fn planner_schema() -> JsonView {
    JsonView::Object(
        seq![
            ("$schema"@, JsonView::Text("https://json-schema.org/draft/2020-12/schema"@)),
            ("title"@, JsonView::Text("Mercury CLI Planner Response v1"@)),
        ] + closed_object(
            seq![
                (
                    "schema_version"@,
                    JsonView::Object(
                        seq![
                            ("type"@, JsonView::Text("string"@)),
                            ("const"@, JsonView::Text("planner-response-v1"@)),
                        ],
                    ),
                ),
                ("steps"@, list_of(step_schema())),
                ("assessments"@, list_of(assessment_schema())),
            ],
            seq!["schema_version"@, "steps"@, "assessments"@],
        ),
    )
}

fn number(s: &str) -> (r: Json)
    ensures
        r@ == JsonView::Number(s@),
{
    Json::Number(own(s))
}

fn pair(a: (String, Json), b: (String, Json)) -> (r: Json)
    ensures
        r@ == JsonView::Object(seq![(a.0@, a.1@), (b.0@, b.1@)]),
{
    let fields = vec![a, b];
    proof {
        assert(json::fields_view(fields@) =~= seq![(a.0@, a.1@), (b.0@, b.1@)]);
    }
    object(fields)
}

fn unit_number_schema() -> (r: Json)
    ensures
        r@ == unit_number(),
{
    let fields = vec![
        field("type", text("number")),
        field("minimum", number("0.0")),
        field("maximum", number("1.0")),
    ];
    proof {
        assert(json::fields_view(fields@) =~= unit_number()->Object_0);
    }
    object(fields)
}

fn filled_text_schema() -> (r: Json)
    ensures
        r@ == filled_text(),
{
    pair(field("type", text("string")), field("minLength", number("1")))
}

fn closed_fields(properties: Vec<(String, Json)>, required: Vec<String>) -> (r: Vec<(String, Json)>)
    ensures
        json::fields_view(r@) == closed_object(
            json::fields_view(properties@),
            chars::texts(required@),
        ),
{
    let fields = vec![
        field("type", text("object")),
        field("properties", object(properties)),
        field("required", text_list(required.as_slice())),
        field("additionalProperties", Json::Bool(false)),
    ];
    proof {
        assert(json::fields_view(fields@) =~= closed_object(
            json::fields_view(properties@),
            chars::texts(required@),
        ));
    }
    fields
}

fn list_schema(items: Json) -> (r: Json)
    ensures
        r@ == list_of(items@),
{
    pair(field("type", text("array")), field("items", items))
}

/// The schema of a thermal assessment.
pub fn thermal_assessment_json_schema() -> (r: Json)
    ensures
        r@ == assessment_schema(),
{
    let options = vec![
        own("lock"),
        own("refactor"),
        own("test"),
        own("monitor"),
        own("ignore"),
    ];
    proof {
        assert(chars::texts(options@) =~= actions());
    }
    let action = pair(
        field("type", text("string")),
        field("enum", text_list(options.as_slice())),
    );
    let properties = vec![
        field("complexity_score", unit_number_schema()),
        field("dependency_score", unit_number_schema()),
        field("risk_score", unit_number_schema()),
        field("churn_score", unit_number_schema()),
        field("suggested_action", action),
        field("reasoning", filled_text_schema()),
    ];
    let required = vec![
        own("complexity_score"),
        own("dependency_score"),
        own("risk_score"),
        own("churn_score"),
        own("suggested_action"),
        own("reasoning"),
    ];
    let ghost props = json::fields_view(properties@);
    let ghost req = chars::texts(required@);
    let fields = closed_fields(properties, required);
    proof {
        assert(props =~= assessment_schema()->Object_0[1].1->Object_0);
        assert(req =~= seq![
            "complexity_score"@,
            "dependency_score"@,
            "risk_score"@,
            "churn_score"@,
            "suggested_action"@,
            "reasoning"@,
        ]);
    }
    object(fields)
}

fn plan_step_schema() -> (r: Json)
    ensures
        r@ == step_schema(),
{
    let tokens = pair(field("type", text("integer")), field("minimum", number("0")));
    let properties = vec![
        field("file_path", filled_text_schema()),
        field("instruction", filled_text_schema()),
        field("priority", unit_number_schema()),
        field("estimated_tokens", tokens),
    ];
    let required = vec![
        own("file_path"),
        own("instruction"),
        own("priority"),
        own("estimated_tokens"),
    ];
    let ghost props = json::fields_view(properties@);
    let ghost req = chars::texts(required@);
    let fields = closed_fields(properties, required);
    proof {
        assert(props =~= step_schema()->Object_0[1].1->Object_0);
        assert(req =~= seq!["file_path"@, "instruction"@, "priority"@, "estimated_tokens"@]);
    }
    object(fields)
}

/// The schema of planner responses.
pub fn planner_response_json_schema_v1() -> (r: Json)
    ensures
        r@ == planner_schema(),
{
    let version = pair(
        field("type", text("string")),
        field("const", text("planner-response-v1")),
    );
    let properties = vec![
        field("schema_version", version),
        field("steps", list_schema(plan_step_schema())),
        field("assessments", list_schema(thermal_assessment_json_schema())),
    ];
    let required = vec![own("schema_version"), own("steps"), own("assessments")];
    let ghost props = json::fields_view(properties@);
    let ghost req = chars::texts(required@);
    let mut rest = closed_fields(properties, required);
    let ghost tail = json::fields_view(rest@);
    let mut fields = vec![
        field("$schema", text("https://json-schema.org/draft/2020-12/schema")),
        field("title", text("Mercury CLI Planner Response v1")),
    ];
    let ghost head = json::fields_view(fields@);
    let ghost f0 = fields@;
    let ghost r0 = rest@;
    fields.append(&mut rest);
    proof {
        let all = planner_schema()->Object_0;
        assert(props =~= all[3].1->Object_0);
        assert(req =~= seq!["schema_version"@, "steps"@, "assessments"@]);
        assert(head =~= all.take(2));
        assert(fields@ =~= f0 + r0);
        assert(json::fields_view(fields@) =~= head + tail);
        assert(head + tail =~= all);
    }
    object(fields)
}

} // verus!
