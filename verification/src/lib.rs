//! Verified core of the bot library: area awareness data, the AAS file
//! format, clustering, data optimization and the bot AI bookkeeping.
#![allow(non_snake_case)]
#![allow(non_camel_case_types)]

pub mod cstr;
pub mod aasfile;
pub mod aasworld;
pub mod aas_file;
pub mod cluster;
pub mod clusternum;
pub mod clustering;
pub mod portals;
pub mod routealt;
pub mod opaque;
pub mod optimize;
pub mod goal;
pub mod links;
pub mod strindex;
pub mod character;
pub mod weapon;
pub mod levelitems;
pub mod bspent;
pub mod itemgoals;
pub mod entity;
pub mod sample;
pub mod weights;
pub mod areaflood;
pub mod fileinfo;
pub mod atoi;
pub mod weaponconfig;
pub mod itemchoice;
pub mod itemscript;
pub mod entityitems;
pub mod bspparse;
pub mod charscript;
pub mod weightscript;
pub mod chaincheck;
pub mod charcache;
pub mod weightfiles;
