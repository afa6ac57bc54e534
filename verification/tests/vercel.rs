//! Deployments in flight.

use pitwall::model::{DeployStatus, Deployment, Timestamp};
use pitwall::vercel::{
    from_epoch_ms, next_deployments, parse_deployments, RawDeployment, RawList, RawMeta,
};
use serde_json::Value;

const FIXTURE: &str = r#"
{
  "deployments": [
    {
      "url": "pulse-abc-zweizeiler.vercel.app",
      "name": "pulse",
      "state": "BUILDING",
      "target": "production",
      "createdAt": 1783260670752,
      "buildingAt": 1783260672238,
      "meta": {
        "githubCommitMessage": "fix: something important\n\nbody line here",
        "githubCommitRef": "main",
        "githubOrg": "erwins-enkel",
        "githubRepo": "pulse"
      }
    },
    {
      "url": "pulse-def-zweizeiler.vercel.app",
      "name": "pulse",
      "state": "QUEUED",
      "target": null,
      "createdAt": 1783260680000,
      "meta": {
        "githubCommitMessage": "feat: queued change",
        "githubCommitRef": "feat/x",
        "githubOrg": "erwins-enkel",
        "githubRepo": "pulse"
      }
    },
    {
      "url": "shepherd-site-xyz-zweizeiler.vercel.app",
      "name": "shepherd-site",
      "state": "BUILDING",
      "target": "production",
      "createdAt": 1783260690000,
      "buildingAt": 1783260691000,
      "meta": {
        "githubCommitMessage": "chore: unrelated",
        "githubCommitRef": "main",
        "githubOrg": "erwins-enkel",
        "githubRepo": "shepherd"
      }
    },
    {
      "url": "nometa-zweizeiler.vercel.app",
      "name": "mystery",
      "state": "BUILDING",
      "target": "production",
      "createdAt": 1783260695000,
      "buildingAt": 1783260696000
    }
  ]
}
"#;

fn text(v: &Value, key: &str) -> Option<String> {
    v.get(key).and_then(|s| s.as_str()).map(String::from)
}

fn raw_list(json: &str) -> Option<RawList> {
    let v: Value = serde_json::from_str(json).ok()?;
    let mut deployments = Vec::new();
    for d in v.get("deployments")?.as_array()? {
        deployments.push(RawDeployment {
            name: text(d, "name")?,
            state: text(d, "state")?,
            target: text(d, "target"),
            created_at: d.get("createdAt")?.as_u64()?,
            building_at: d.get("buildingAt").and_then(|n| n.as_u64()),
            meta: d.get("meta").map(|m| RawMeta {
                github_commit_message: text(m, "githubCommitMessage"),
                github_commit_ref: text(m, "githubCommitRef"),
                github_org: text(m, "githubOrg"),
                github_repo: text(m, "githubRepo"),
            }),
        });
    }
    Some(RawList { deployments })
}

fn deployments(json: &str, repos: &[String]) -> Vec<Deployment> {
    parse_deployments(&raw_list(json), repos)
}

fn millis(t: Timestamp) -> i64 {
    t.secs * 1000 + (t.nanos / 1_000_000) as i64
}

#[test]
fn filters_to_configured_repo_only() {
    let repos = vec!["erwins-enkel/pulse".to_string()];
    let out = deployments(FIXTURE, &repos);
    assert_eq!(out.len(), 2);
    assert!(out.iter().all(|d| d.project == "pulse"));
}

#[test]
fn derives_status_and_started_at() {
    let repos = vec!["erwins-enkel/pulse".to_string()];
    let out = deployments(FIXTURE, &repos);
    let building = out
        .iter()
        .find(|d| d.status == DeployStatus::Building)
        .unwrap();
    assert_eq!(millis(building.started_at), 1783260672238);
    let queued = out
        .iter()
        .find(|d| d.status == DeployStatus::Queued)
        .unwrap();
    assert_eq!(millis(queued.started_at), 1783260680000);
}

#[test]
fn maps_fields_for_queued_deployment() {
    let repos = vec!["erwins-enkel/pulse".to_string()];
    let out = deployments(FIXTURE, &repos);
    let queued = out
        .iter()
        .find(|d| d.status == DeployStatus::Queued)
        .unwrap();
    assert_eq!(queued.target, "preview");
    assert_eq!(queued.branch, "feat/x");
    assert_eq!(queued.commit_summary, "feat: queued change");
    assert_eq!(queued.repo, "erwins-enkel/pulse");
    assert_eq!(queued.project, "pulse");
}

#[test]
fn only_the_first_line_of_a_commit_message_is_kept() {
    let repos = vec!["erwins-enkel/pulse".to_string()];
    let out = deployments(FIXTURE, &repos);
    assert_eq!(out[0].commit_summary, "fix: something important");
}

#[test]
fn matches_repo_case_insensitively() {
    let repos = vec!["erwins-enkel/PULSE".to_string()];
    let out = deployments(FIXTURE, &repos);
    assert_eq!(out.len(), 2);
}

#[test]
fn drops_unknown_state() {
    let json = r#"
    {
      "deployments": [
        {
          "name": "pulse",
          "state": "READY",
          "target": "production",
          "createdAt": 1783260670752,
          "meta": {
            "githubCommitMessage": "x",
            "githubCommitRef": "main",
            "githubOrg": "erwins-enkel",
            "githubRepo": "pulse"
          }
        }
      ]
    }
    "#;
    let out = deployments(json, &["erwins-enkel/pulse".to_string()]);
    assert_eq!(out.len(), 0);
}

#[test]
fn malformed_json_returns_empty_vec() {
    let out = deployments("not json", &["a/b".to_string()]);
    assert!(out.is_empty());
}

#[test]
fn a_build_without_a_start_counts_from_its_creation() {
    let entry = |building_at: Option<u64>| {
        Some(RawList {
            deployments: vec![RawDeployment {
                name: "p".into(),
                state: "BUILDING".into(),
                target: None,
                created_at: 1234,
                building_at,
                meta: Some(RawMeta {
                    github_commit_message: None,
                    github_commit_ref: None,
                    github_org: Some("o".into()),
                    github_repo: Some("r".into()),
                }),
            }],
        })
    };
    let repos = vec!["o/r".to_string()];
    let d = &parse_deployments(&entry(None), &repos)[0];
    assert_eq!(
        d.started_at,
        Timestamp {
            secs: 1,
            nanos: 234_000_000
        }
    );
    assert_eq!((d.branch.as_str(), d.commit_summary.as_str()), ("", ""));
    let d = &parse_deployments(&entry(Some(5000)), &repos)[0];
    assert_eq!(d.started_at, Timestamp { secs: 5, nanos: 0 });
}

#[test]
fn the_latest_millisecond_has_a_time() {
    let t = from_epoch_ms(u64::MAX);
    assert_eq!(t.secs, (u64::MAX / 1000) as i64);
    assert_eq!(t.nanos, 615_000_000);
}

#[test]
fn reports_are_ordered_and_empty_without_repositories() {
    let now = from_epoch_ms(1783260700000);
    let repos = vec![
        "erwins-enkel/shepherd".to_string(),
        "erwins-enkel/pulse".to_string(),
    ];
    let update = next_deployments(&raw_list(FIXTURE), &repos, now);
    let order: Vec<(&str, DeployStatus)> = update
        .deployments
        .iter()
        .map(|d| (d.project.as_str(), d.status))
        .collect();
    assert_eq!(
        order,
        vec![
            ("pulse", DeployStatus::Building),
            ("shepherd-site", DeployStatus::Building),
            ("pulse", DeployStatus::Queued)
        ]
    );
    assert!(next_deployments(&raw_list(FIXTURE), &[], now)
        .deployments
        .is_empty());
    assert!(next_deployments(&None, &repos, now).deployments.is_empty());
}
