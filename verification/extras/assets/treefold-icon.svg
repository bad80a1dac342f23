<svg xmlns="http://www.w3.org/2000/svg" width="1024" height="1024" viewBox="0 0 1024 1024">
  <rect x="64" y="64" width="896" height="896" rx="180" fill="#1d2b36"/>
  <rect x="160" y="160" width="420" height="704" rx="28" fill="#e8743b"/>
  <rect x="596" y="160" width="268" height="420" rx="28" fill="#f2b134"/>
  <rect x="596" y="596" width="128" height="268" rx="20" fill="#4cb5ae"/>
  <rect x="736" y="596" width="128" height="268" rx="20" fill="#3d7cc9"/>
  <path d="M370 860 V520 M370 640 L270 540 M370 600 L470 500" stroke="#1d2b36" stroke-width="34" stroke-linecap="round" fill="none"/>
</svg>
